//! Parser for the probe engine's streamed JSON output, exactly as the
//! synthesized interval printer emits it: one object per second holding the
//! running time and one of the three mode payloads.
use vstd::prelude::*;

use crate::error::Error;
use crate::events::{STraceInfoMode, TraceCumulative, TraceInfo, TraceInfoMode};
use crate::compiler::s_join;
use crate::strutil;
use crate::strutil::chars_of;

verus! {

/// A decimal digit.
pub open spec fn s_is_digit(c: char) -> bool {
    48 <= c as int <= 57
}

/// The first position at or after `i` that does not hold a digit.
pub open spec fn s_digits_end(s: Seq<char>, i: int) -> int
    decreases s.len() - i when 0 <= i <= s.len()
{
    if i < s.len() && s_is_digit(s[i]) {
        s_digits_end(s, i + 1)
    } else {
        i
    }
}

/// Value of the digit run `s[i..j)`.
pub open spec fn s_num_val(s: Seq<char>, i: int, j: int) -> nat
    decreases j - i when i <= j
{
    if j <= i {
        0
    } else {
        s_num_val(s, i, j - 1) * 10 + (s[j - 1] as int - 48) as nat
    }
}

/// The literal `lit` stands at position `i` of `s`.
pub open spec fn s_lit_at(s: Seq<char>, i: int, lit: Seq<char>) -> bool {
    0 <= i && i + lit.len() <= s.len() && s.subrange(i, i + lit.len()) == lit
}

/// A `u64` read from the digit run at `i`; `None` if there is no digit or
/// the value overflows.
pub open spec fn s_parse_u64(s: Seq<char>, i: int) -> Option<(u64, int)> {
    let j = s_digits_end(s, i);
    if j == i || s_num_val(s, i, j) > u64::MAX {
        None
    } else {
        Some((s_num_val(s, i, j) as u64, j))
    }
}

/// A `[duration, count]` pair read at `i`.
pub open spec fn s_parse_cum(s: Seq<char>, i: int) -> Option<(TraceCumulative, int)> {
    if s_lit_at(s, i, "["@) {
        match s_parse_u64(s, i + 1) {
            None => None,
            Some((duration, i2)) => if s_lit_at(s, i2, ", "@) {
                match s_parse_u64(s, i2 + 2) {
                    None => None,
                    Some((count, i3)) => if s_lit_at(s, i3, "]"@) {
                        Some((TraceCumulative { duration, count }, i3 + 1))
                    } else {
                        None
                    },
                }
            } else {
                None
            },
        }
    } else {
        None
    }
}

/// A `"line": [duration, count]` entry read at `i`.
pub open spec fn s_parse_line_entry(s: Seq<char>, i: int) -> Option<((u32, TraceCumulative), int)> {
    if s_lit_at(s, i, "\""@) {
        match s_parse_u64(s, i + 1) {
            None => None,
            Some((line, i2)) => if line > u32::MAX {
                None
            } else if s_lit_at(s, i2, "\": "@) {
                match s_parse_cum(s, i2 + 3) {
                    None => None,
                    Some((cum, i3)) => Some(((line as u32, cum), i3)),
                }
            } else {
                None
            },
        }
    } else {
        None
    }
}

/// The line entries read at `i`, separated by `", "`, ending before a `}`.
pub open spec fn s_parse_line_entries(s: Seq<char>, i: int) -> Option<(
    Seq<(u32, TraceCumulative)>,
    int,
)>
    decreases s.len() - i when 0 <= i <= s.len()
{
    if i < s.len() && s[i] == '}' {
        Some((Seq::empty(), i))
    } else {
        match s_parse_line_entry(s, i) {
            None => None,
            Some((entry, j)) => if !(i < j <= s.len()) {
                None
            } else if s_lit_at(s, j, ", "@) {
                if j + 2 <= s.len() {
                    match s_parse_line_entries(s, j + 2) {
                        None => None,
                        Some((rest, k)) => if rest.len() == 0 {
                            // A separator promises another entry.
                            None
                        } else {
                            Some((seq![entry] + rest, k))
                        },
                    }
                } else {
                    None
                }
            } else {
                Some((seq![entry], j))
            },
        }
    }
}

/// The breakdown entries read at `i`: `, "<idx>": [d, c]` repeated with
/// consecutive indices, ending before a `}`.
pub open spec fn s_parse_breakdown_entries(s: Seq<char>, i: int, idx: int) -> Option<(
    Seq<TraceCumulative>,
    int,
)>
    decreases s.len() - i when 0 <= i <= s.len()
{
    if i < s.len() && s[i] == '}' {
        Some((Seq::empty(), i))
    } else if s_lit_at(s, i, ", \""@) {
        match s_parse_u64(s, i + 3) {
            None => None,
            Some((key, j)) => if key as int != idx {
                None
            } else if s_lit_at(s, j, "\": "@) {
                match s_parse_cum(s, j + 3) {
                    None => None,
                    Some((cum, k)) => if !(i < k <= s.len()) {
                        None
                    } else {
                        match s_parse_breakdown_entries(s, k, idx + 1) {
                            None => None,
                            Some((rest, m)) => Some((seq![cum] + rest, m)),
                        }
                    },
                }
            } else {
                None
            },
        }
    } else {
        None
    }
}

/// The histogram text read at `i`, decoding the `\n`, `\"` and `\\` escapes,
/// up to and including the closing quote.
pub open spec fn s_parse_string(s: Seq<char>, i: int) -> Option<(Seq<char>, int)>
    decreases s.len() - i when 0 <= i <= s.len()
{
    if i >= s.len() {
        None
    } else if s[i] == '"' {
        Some((Seq::empty(), i + 1))
    } else if s[i] == '\\' {
        if i + 1 < s.len() {
            let c = s[i + 1];
            if c == 'n' || c == '"' || c == '\\' {
                match s_parse_string(s, i + 2) {
                    None => None,
                    Some((rest, j)) => Some(
                        (seq![if c == 'n' {
                            '\n'
                        } else {
                            c
                        }] + rest, j),
                    ),
                }
            } else {
                None
            }
        } else {
            None
        }
    } else {
        match s_parse_string(s, i + 1) {
            None => None,
            Some((rest, j)) => Some((seq![s[i]] + rest, j)),
        }
    }
}

/// What one output object of the probe engine parses to: the running time
/// and the mode payload.
pub open spec fn s_parse_trace(s: Seq<char>) -> Option<(u64, STraceInfoMode)> {
    if !s_lit_at(s, 0, "{\"time\": "@) {
        None
    } else {
        match s_parse_u64(s, 9) {
            None => None,
            Some((time, i)) => if s_lit_at(s, i, ", \"lines\": {"@) {
                match s_parse_line_entries(s, i + 12) {
                    None => None,
                    Some((entries, j)) => if s_lit_at(s, j, "}}"@) && j + 2 == s.len() {
                        Some((time, STraceInfoMode::Lines(entries)))
                    } else {
                        None
                    },
                }
            } else if s_lit_at(s, i, ", \"histogram\": \""@) {
                match s_parse_string(s, i + 16) {
                    None => None,
                    Some((text, j)) => if s_lit_at(s, j, "}"@) && j + 1 == s.len() {
                        Some((time, STraceInfoMode::Histogram(text)))
                    } else {
                        None
                    },
                }
            } else if s_lit_at(s, i, ", \"breakdown\": {\"last_frame\": "@) {
                match s_parse_cum(s, i + 30) {
                    None => None,
                    Some((last, j)) => match s_parse_breakdown_entries(s, j, 0) {
                        None => None,
                        Some((rest, k)) => if s_lit_at(s, k, "}}"@) && k + 2 == s.len() {
                            Some(
                                (
                                    time,
                                    STraceInfoMode::Breakdown {
                                        last_frame_trace: last,
                                        breakdown_traces: rest,
                                    },
                                ),
                            )
                        } else {
                            None
                        },
                    },
                }
            } else {
                None
            },
        }
    }
}

/// `s` with every newline replaced by the two-character `\n` escape, so that
/// the multi-line histogram text becomes a single JSON line.
pub open spec fn s_escape_newlines(s: Seq<char>) -> Seq<char>
    decreases s.len(),
{
    if s.len() == 0 {
        Seq::empty()
    } else {
        s_escape_newlines(s.drop_last()) + (if s.last() == '\n' {
            seq!['\\', 'n']
        } else {
            seq![s.last()]
        })
    }
}

/// The digit-run value only grows as the run extends.
proof fn lemma_num_val_monotone(s: Seq<char>, i: int, j1: int, j2: int)
    requires
        i <= j1 <= j2,
    ensures
        s_num_val(s, i, j1) <= s_num_val(s, i, j2),
    decreases j2 - j1,
{
    if j1 < j2 {
        lemma_num_val_monotone(s, i, j1, j2 - 1);
        assert(s_num_val(s, i, j2) == s_num_val(s, i, j2 - 1) * 10 + (s[j2 - 1] as int - 48)
            as nat);
        assert(s_num_val(s, i, j2 - 1) * 10 >= s_num_val(s, i, j2 - 1)) by (nonlinear_arith);
    }
}

/// The lengths of the punctuation literals the parser consumes.
proof fn lemma_parser_literals()
    ensures
        "["@.len() == 1,
        ", "@.len() == 2,
        "]"@.len() == 1,
        "\""@.len() == 1,
        "\": "@.len() == 3,
        ", \""@.len() == 3,
        "{\"time\": "@.len() == 9,
        ", \"lines\": {"@.len() == 12,
        ", \"histogram\": \""@.len() == 16,
        ", \"breakdown\": {\"last_frame\": "@.len() == 30,
        "}}"@.len() == 2,
        "}"@.len() == 1,
{
    reveal_strlit("[");
    reveal_strlit(", ");
    reveal_strlit("]");
    reveal_strlit("\"");
    reveal_strlit("\": ");
    reveal_strlit(", \"");
    reveal_strlit("{\"time\": ");
    reveal_strlit(", \"lines\": {");
    reveal_strlit(", \"histogram\": \"");
    reveal_strlit(", \"breakdown\": {\"last_frame\": ");
    reveal_strlit("}}");
    reveal_strlit("}");
}

/// Whether the literal stands at position `i`; answers the position after it.
fn expect_lit(chars: &Vec<char>, i: usize, lit: &str) -> (r: Option<usize>)
    ensures
        (r matches Some(j)) == s_lit_at(chars@, i as int, lit@),
        r matches Some(j) ==> j == i + lit@.len() && j <= chars@.len(),
{
    let lit_chars = chars_of(lit);
    let m = lit_chars.len();
    if m > chars.len() || i > chars.len() - m {
        proof {
            assert(!s_lit_at(chars@, i as int, lit@));
        }
        return None;
    }
    let mut k: usize = 0;
    while k < m
        invariant
            lit_chars@ == lit@,
            m == lit@.len(),
            i + m <= chars@.len(),
            chars@.len() <= usize::MAX,
            k <= m,
            forall|t: int| 0 <= t < k ==> chars@[i + t] == lit@[t],
        decreases m - k,
    {
        if chars[i + k] != lit_chars[k] {
            proof {
                assert(chars@.subrange(i as int, i + lit@.len())[k as int] == chars@[i + k]);
            }
            return None;
        }
        k = k + 1;
    }
    proof {
        assert(chars@.subrange(i as int, i + lit@.len()) =~= lit@);
    }
    Some(i + m)
}

/// A `u64` read from the digit run at `i`.
fn parse_u64_at(chars: &Vec<char>, i: usize) -> (r: Option<(u64, usize)>)
    requires
        i <= chars@.len(),
    ensures
        (match r {
            Some((v, j)) => Some((v, j as int)),
            None => None,
        }) == s_parse_u64(chars@, i as int),
        r matches Some((v, j)) ==> i < j <= chars@.len(),
{
    let n = chars.len();
    let ghost sv = chars@;
    if i == n || !(chars[i] >= '0' && chars[i] <= '9') {
        proof {
            if i < n {
                assert(!s_is_digit(sv[i as int]));
            }
            assert(s_digits_end(sv, i as int) == i as int);
        }
        return None;
    }
    let mut j: usize = i;
    let mut acc: u64 = 0;
    while j < n && chars[j] >= '0' && chars[j] <= '9'
        invariant
            sv == chars@,
            n == sv.len(),
            i <= j <= n,
            forall|k: int| i <= k < j ==> s_is_digit(#[trigger] sv[k]),
            s_digits_end(sv, i as int) == s_digits_end(sv, j as int),
            acc == s_num_val(sv, i as int, j as int),
        decreases n - j,
    {
        let d: u64 = (chars[j] as u32 - 48) as u64;
        proof {
            assert(s_is_digit(sv[j as int]));
            assert(s_digits_end(sv, j as int) == s_digits_end(sv, j + 1));
            assert(s_num_val(sv, i as int, j + 1) == s_num_val(sv, i as int, j as int) * 10 + (
            sv[j as int] as int - 48) as nat);
        }
        if acc > (u64::MAX - d) / 10 {
            proof {
                let end = s_digits_end(sv, i as int);
                assert(acc * 10 + d > u64::MAX) by (nonlinear_arith)
                    requires
                        acc > (u64::MAX - d) / 10,
                        d <= 9,
                ;
                assert(end == s_digits_end(sv, j + 1));
                lemma_digits_end_ge(sv, j + 1);
                lemma_num_val_monotone(sv, i as int, j + 1, end);
                assert(s_num_val(sv, i as int, end) > u64::MAX);
            }
            return None;
        }
        acc = acc * 10 + d;
        j = j + 1;
    }
    proof {
        if j < n {
            assert(!s_is_digit(sv[j as int]));
        }
        assert(s_digits_end(sv, j as int) == j as int);
        assert(s_num_val(sv, i as int, j as int) <= u64::MAX);
    }
    Some((acc, j))
}

/// The end of a digit run does not precede its start.
proof fn lemma_digits_end_ge(s: Seq<char>, i: int)
    requires
        0 <= i <= s.len(),
    ensures
        i <= s_digits_end(s, i) <= s.len(),
    decreases s.len() - i,
{
    if i < s.len() && s_is_digit(s[i]) {
        lemma_digits_end_ge(s, i + 1);
    }
}

/// A `[duration, count]` pair read at `i`.
fn parse_cum_at(chars: &Vec<char>, i: usize) -> (r: Option<(TraceCumulative, usize)>)
    requires
        i <= chars@.len(),
    ensures
        (match r {
            Some((c, j)) => Some((c, j as int)),
            None => None,
        }) == s_parse_cum(chars@, i as int),
        r matches Some((c, j)) ==> i < j <= chars@.len(),
{
    proof {
        lemma_parser_literals();
    }
    let i1 = match expect_lit(chars, i, "[") {
        Some(j) => j,
        None => {
            return None;
        },
    };
    let (duration, i2) = match parse_u64_at(chars, i1) {
        Some(p) => p,
        None => {
            return None;
        },
    };
    let i3 = match expect_lit(chars, i2, ", ") {
        Some(j) => j,
        None => {
            return None;
        },
    };
    let (count, i4) = match parse_u64_at(chars, i3) {
        Some(p) => p,
        None => {
            return None;
        },
    };
    match expect_lit(chars, i4, "]") {
        Some(j) => Some((TraceCumulative { duration, count }, j)),
        None => None,
    }
}

/// A `"line": [duration, count]` entry read at `i`.
fn parse_line_entry_at(chars: &Vec<char>, i: usize) -> (r: Option<((u32, TraceCumulative), usize)>)
    requires
        i <= chars@.len(),
    ensures
        (match r {
            Some((e, j)) => Some((e, j as int)),
            None => None,
        }) == s_parse_line_entry(chars@, i as int),
        r matches Some((e, j)) ==> i < j <= chars@.len(),
{
    proof {
        lemma_parser_literals();
    }
    let i1 = match expect_lit(chars, i, "\"") {
        Some(j) => j,
        None => {
            return None;
        },
    };
    let (line, i2) = match parse_u64_at(chars, i1) {
        Some(p) => p,
        None => {
            return None;
        },
    };
    if line > 0xffff_ffffu64 {
        return None;
    }
    let i3 = match expect_lit(chars, i2, "\": ") {
        Some(j) => j,
        None => {
            return None;
        },
    };
    match parse_cum_at(chars, i3) {
        Some((cum, j)) => Some(((line as u32, cum), j)),
        None => None,
    }
}

/// The line entries read at `i`, separated by `", "`.
fn parse_line_entries_at(chars: &Vec<char>, i: usize) -> (r: Option<(
    Vec<(u32, TraceCumulative)>,
    usize,
)>)
    requires
        i <= chars@.len(),
    ensures
        (match r {
            Some((es, j)) => Some((es@, j as int)),
            None => None,
        }) == s_parse_line_entries(chars@, i as int),
        r matches Some((es, j)) ==> i <= j <= chars@.len(),
    decreases chars@.len() - i,
{
    proof {
        lemma_parser_literals();
    }
    if i < chars.len() && chars[i] == '}' {
        let empty: Vec<(u32, TraceCumulative)> = Vec::new();
        proof {
            assert(empty@ =~= Seq::<(u32, TraceCumulative)>::empty());
        }
        return Some((empty, i));
    }
    let (entry, j) = match parse_line_entry_at(chars, i) {
        Some(p) => p,
        None => {
            return None;
        },
    };
    match expect_lit(chars, j, ", ") {
        Some(j2) => {
            match parse_line_entries_at(chars, j2) {
                Some((rest, k)) => {
                    if rest.len() == 0 {
                        None
                    } else {
                        let mut es = rest;
                        es.insert(0, entry);
                        proof {
                            assert(es@ =~= seq![entry] + es@.drop_first());
                        }
                        Some((es, k))
                    }
                },
                None => None,
            }
        },
        None => Some((vec_of_one(entry), j)),
    }
}

/// A one-element list.
fn vec_of_one(entry: (u32, TraceCumulative)) -> (r: Vec<(u32, TraceCumulative)>)
    ensures
        r@ == seq![entry],
{
    let mut r: Vec<(u32, TraceCumulative)> = Vec::new();
    r.push(entry);
    proof {
        assert(r@ =~= seq![entry]);
    }
    r
}

/// The breakdown entries read at `i` with consecutive indices from `idx`.
fn parse_breakdown_entries_at(chars: &Vec<char>, i: usize, idx: u64) -> (r: Option<(
    Vec<TraceCumulative>,
    usize,
)>)
    requires
        i <= chars@.len(),
        idx <= i as u64,
    ensures
        (match r {
            Some((es, j)) => Some((es@, j as int)),
            None => None,
        }) == s_parse_breakdown_entries(chars@, i as int, idx as int),
        r matches Some((es, j)) ==> i <= j <= chars@.len(),
    decreases chars@.len() - i,
{
    proof {
        lemma_parser_literals();
    }
    if i < chars.len() && chars[i] == '}' {
        let empty: Vec<TraceCumulative> = Vec::new();
        proof {
            assert(empty@ =~= Seq::<TraceCumulative>::empty());
        }
        return Some((empty, i));
    }
    let i1 = match expect_lit(chars, i, ", \"") {
        Some(j) => j,
        None => {
            return None;
        },
    };
    let (key, j) = match parse_u64_at(chars, i1) {
        Some(p) => p,
        None => {
            return None;
        },
    };
    if key != idx {
        return None;
    }
    let j1 = match expect_lit(chars, j, "\": ") {
        Some(p) => p,
        None => {
            return None;
        },
    };
    let (cum, k) = match parse_cum_at(chars, j1) {
        Some(p) => p,
        None => {
            return None;
        },
    };
    match parse_breakdown_entries_at(chars, k, idx + 1) {
        Some((rest, m)) => {
            let mut es = rest;
            es.insert(0, cum);
            proof {
                assert(es@ =~= seq![cum] + es@.drop_first());
            }
            Some((es, m))
        },
        None => None,
    }
}

/// The histogram text read at `i`, up to the closing quote.
fn parse_string_at(chars: &Vec<char>, i: usize) -> (r: Option<(Vec<char>, usize)>)
    requires
        i <= chars@.len(),
    ensures
        (match r {
            Some((t, j)) => Some((t@, j as int)),
            None => None,
        }) == s_parse_string(chars@, i as int),
        r matches Some((t, j)) ==> i < j <= chars@.len(),
    decreases chars@.len() - i,
{
    if i >= chars.len() {
        return None;
    }
    if chars[i] == '"' {
        let empty: Vec<char> = Vec::new();
        proof {
            assert(empty@ =~= Seq::<char>::empty());
        }
        return Some((empty, i + 1));
    }
    if chars[i] == '\\' {
        if i + 1 < chars.len() {
            let c = chars[i + 1];
            if c == 'n' || c == '"' || c == '\\' {
                match parse_string_at(chars, i + 2) {
                    Some((rest, j)) => {
                        let decoded: char = if c == 'n' {
                            '\n'
                        } else {
                            c
                        };
                        let mut t = rest;
                        t.insert(0, decoded);
                        proof {
                            assert(t@ =~= seq![decoded] + t@.drop_first());
                        }
                        Some((t, j))
                    },
                    None => None,
                }
            } else {
                None
            }
        } else {
            None
        }
    } else {
        match parse_string_at(chars, i + 1) {
            Some((rest, j)) => {
                let c = chars[i];
                let mut t = rest;
                t.insert(0, c);
                proof {
                    assert(t@ =~= seq![c] + t@.drop_first());
                }
                Some((t, j))
            },
            None => None,
        }
    }
}

/// `s` with every newline replaced by the two-character `\n` escape.
fn escape_newlines(s: &str) -> (r: Vec<char>)
    ensures
        r@ == s_escape_newlines(s@),
{
    let chars = chars_of(s);
    let mut out: Vec<char> = Vec::new();
    let mut i: usize = 0;
    proof {
        assert(out@ =~= s_escape_newlines(s@.take(0)));
    }
    while i < chars.len()
        invariant
            chars@ == s@,
            i <= s@.len(),
            out@ == s_escape_newlines(s@.take(i as int)),
        decreases s@.len() - i,
    {
        let c = chars[i];
        if c == '\n' {
            out.push('\\');
            out.push('n');
        } else {
            out.push(c);
        }
        proof {
            assert(s@.take(i + 1).drop_last() =~= s@.take(i as int));
            assert(s@.take(i + 1).last() == s@[i as int]);
            assert(out@ =~= s_escape_newlines(s@.take(i + 1)));
        }
        i = i + 1;
    }
    proof {
        assert(s@.take(s@.len() as int) =~= s@);
    }
    out
}

/// One parsed output object: running time and mode payload.
fn parse_trace(chars: &Vec<char>) -> (r: Option<(u64, TraceInfoMode)>)
    ensures
        (match r {
            Some((t, mode)) => Some((t, mode@)),
            None => None,
        }) == s_parse_trace(chars@),
{
    proof {
        lemma_parser_literals();
    }
    let i0 = match expect_lit(chars, 0, "{\"time\": ") {
        Some(j) => j,
        None => {
            return None;
        },
    };
    let (time, i) = match parse_u64_at(chars, i0) {
        Some(p) => p,
        None => {
            return None;
        },
    };
    match expect_lit(chars, i, ", \"lines\": {") {
        Some(i1) => {
            let (entries, j) = match parse_line_entries_at(chars, i1) {
                Some(p) => p,
                None => {
                    return None;
                },
            };
            match expect_lit(chars, j, "}}") {
                Some(j2) => {
                    if j2 == chars.len() {
                        Some((time, TraceInfoMode::Lines(entries)))
                    } else {
                        None
                    }
                },
                None => None,
            }
        },
        None => {
            match expect_lit(chars, i, ", \"histogram\": \"") {
                Some(i1) => {
                    let (text, j) = match parse_string_at(chars, i1) {
                        Some(p) => p,
                        None => {
                            return None;
                        },
                    };
                    match expect_lit(chars, j, "}") {
                        Some(j2) => {
                            if j2 == chars.len() {
                                Some(
                                    (time, TraceInfoMode::Histogram(strutil::string_of_chars(&text))),
                                )
                            } else {
                                None
                            }
                        },
                        None => None,
                    }
                },
                None => {
                    match expect_lit(chars, i, ", \"breakdown\": {\"last_frame\": ") {
                        Some(i1) => {
                            let (last, j) = match parse_cum_at(chars, i1) {
                                Some(p) => p,
                                None => {
                                    return None;
                                },
                            };
                            let (rest, k) = match parse_breakdown_entries_at(chars, j, 0) {
                                Some(p) => p,
                                None => {
                                    return None;
                                },
                            };
                            match expect_lit(chars, k, "}}") {
                                Some(k2) => {
                                    if k2 == chars.len() {
                                        Some(
                                            (
                                                time,
                                                TraceInfoMode::Breakdown {
                                                    last_frame_trace: last,
                                                    breakdown_traces: rest,
                                                },
                                            ),
                                        )
                                    } else {
                                        None
                                    }
                                },
                                None => None,
                            }
                        },
                        None => None,
                    }
                },
            }
        },
    }
}

impl crate::trace_structs::TraceStack {
    /// Parse one object of bpftrace output, stamping it with the counter
    /// that was current when the producing program was spawned. Newlines
    /// inside the histogram text are escaped first, since the engine prints
    /// the histogram across several lines.
    pub fn parse(line: &str, counter: u64) -> (r: Result<TraceInfo, Error>)
        ensures
            (match s_parse_trace(s_escape_newlines(line@)) {
                Some((time, mode)) => r matches Ok(info) && info@ == (
                crate::events::STraceInfo { counter, time, traces: mode }),
                None => r matches Err(e) && e@ == "Failed to parse bpftrace output"@,
            }),
    {
        let chars = escape_newlines(line);
        match parse_trace(&chars) {
            Some((time, traces)) => Ok(TraceInfo { counter, time, traces }),
            None => Err(Error::new("Failed to parse bpftrace output".to_owned())),
        }
    }
}

/// The canonical text of a `[duration, count]` pair.
pub open spec fn s_emit_cum(c: TraceCumulative) -> Seq<char> {
    "["@ + strutil::spec_dec(c.duration as nat) + ", "@ + strutil::spec_dec(c.count as nat)
        + "]"@
}

/// The canonical text of one line entry.
pub open spec fn s_emit_line_entry(e: (u32, TraceCumulative)) -> Seq<char> {
    "\""@ + strutil::spec_dec(e.0 as nat) + "\": "@ + s_emit_cum(e.1)
}

/// The canonical text of the line entries, joined by `", "`.
pub open spec fn s_emit_line_entries(entries: Seq<(u32, TraceCumulative)>) -> Seq<char> {
    crate::compiler::s_join(
        entries.map_values(|e: (u32, TraceCumulative)| s_emit_line_entry(e)),
        ", "@,
    )
}

/// The canonical text of the breakdown entries, each preceded by `", "`.
pub open spec fn s_emit_breakdown_entries(entries: Seq<TraceCumulative>, idx: int) -> Seq<char>
    decreases entries.len(),
{
    if entries.len() == 0 {
        Seq::empty()
    } else {
        ", \""@ + strutil::spec_dec(idx as nat) + "\": "@ + s_emit_cum(entries[0])
            + s_emit_breakdown_entries(entries.drop_first(), idx + 1)
    }
}

/// The histogram text with `\`, `"` and newline escaped, as it stands
/// inside the JSON object.
pub open spec fn s_emit_hist_text(text: Seq<char>) -> Seq<char>
    decreases text.len(),
{
    if text.len() == 0 {
        Seq::empty()
    } else {
        s_emit_hist_text(text.drop_last()) + (if text.last() == '\n' {
            seq!['\\', 'n']
        } else if text.last() == '"' {
            seq!['\\', '"']
        } else if text.last() == '\\' {
            seq!['\\', '\\']
        } else {
            seq![text.last()]
        })
    }
}

/// The canonical text of one output object, exactly as the synthesized
/// interval printer emits it.
pub open spec fn s_emit_trace(time: u64, mode: STraceInfoMode) -> Seq<char> {
    match mode {
        STraceInfoMode::Lines(entries) => "{\"time\": "@ + strutil::spec_dec(time as nat)
            + ", \"lines\": {"@ + s_emit_line_entries(entries) + "}}"@,
        STraceInfoMode::Histogram(text) => "{\"time\": "@ + strutil::spec_dec(time as nat)
            + ", \"histogram\": \""@ + s_emit_hist_text(text) + "\"}"@,
        STraceInfoMode::Breakdown { last_frame_trace, breakdown_traces } => "{\"time\": "@
            + strutil::spec_dec(time as nat) + ", \"breakdown\": {\"last_frame\": "@
            + s_emit_cum(last_frame_trace) + s_emit_breakdown_entries(breakdown_traces, 0)
            + "}}"@,
    }
}

/// The canonical text of a parsed trace object: re-emitting what was parsed
/// in the interval printer's own format.
pub fn emit_trace(info: &TraceInfo) -> (r: String)
    ensures
        r@ == s_emit_trace(info@.time, info@.traces),
{
    let mut out: String = "{\"time\": ".to_owned();
    let t = strutil::dec_u64(info.time);
    out.append(t.as_str());
    match &info.traces {
        TraceInfoMode::Lines(entries) => {
            out.append(", \"lines\": {");
            let ghost parts = entries@.map_values(|e: (u32, TraceCumulative)| s_emit_line_entry(e));
            let mut inner: String = String::new();
            let mut i: usize = 0;
            proof {
                assert(inner@ =~= crate::compiler::s_join(parts.take(0), ", "@));
            }
            while i < entries.len()
                invariant
                    i <= entries@.len(),
                    parts == entries@.map_values(
                        |e: (u32, TraceCumulative)| s_emit_line_entry(e),
                    ),
                    parts.len() == entries@.len(),
                    inner@ == crate::compiler::s_join(parts.take(i as int), ", "@),
                decreases entries@.len() - i,
            {
                let ghost inner0 = inner@;
                if i > 0 {
                    inner.append(", ");
                }
                let e = entries[i];
                inner.append("\"");
                let l = strutil::dec_u64(e.0 as u64);
                inner.append(l.as_str());
                inner.append("\": ");
                let cum = emit_cum(&e.1);
                inner.append(cum.as_str());
                proof {
                    assert(parts.take(i + 1).drop_last() =~= parts.take(i as int));
                    assert(parts.take(i + 1).last() == parts[i as int]);
                    assert(entries@[i as int] == e);
                    if i == 0 {
                        assert(inner@ =~= crate::compiler::s_join(parts.take(1), ", "@));
                    } else {
                        assert(inner@ =~= crate::compiler::s_join(parts.take(i + 1), ", "@));
                    }
                }
                i = i + 1;
            }
            proof {
                assert(parts.take(parts.len() as int) =~= parts);
            }
            out.append(inner.as_str());
            out.append("}}");
            proof {
                assert(out@ =~= s_emit_trace(info@.time, info@.traces));
            }
        },
        TraceInfoMode::Histogram(text) => {
            out.append(", \"histogram\": \"");
            let chars = chars_of(text.as_str());
            let mut i: usize = 0;
            let mut enc: String = String::new();
            proof {
                assert(enc@ =~= s_emit_hist_text(text@.take(0)));
            }
            while i < chars.len()
                invariant
                    chars@ == text@,
                    i <= text@.len(),
                    enc@ == s_emit_hist_text(text@.take(i as int)),
                decreases text@.len() - i,
            {
                let c = chars[i];
                if c == '\n' {
                    enc.append("\\n");
                    proof {
                        reveal_strlit("\\n");
                    }
                } else if c == '"' {
                    enc.append("\\\"");
                    proof {
                        reveal_strlit("\\\"");
                    }
                } else if c == '\\' {
                    enc.append("\\\\");
                    proof {
                        reveal_strlit("\\\\");
                    }
                } else {
                    strutil::push_char(&mut enc, c);
                }
                proof {
                    assert(text@.take(i + 1).drop_last() =~= text@.take(i as int));
                    assert(text@.take(i + 1).last() == text@[i as int]);
                    assert(enc@ =~= s_emit_hist_text(text@.take(i + 1)));
                }
                i = i + 1;
            }
            proof {
                assert(text@.take(text@.len() as int) =~= text@);
            }
            out.append(enc.as_str());
            out.append("\"}");
            proof {
                assert(out@ =~= s_emit_trace(info@.time, info@.traces));
            }
        },
        TraceInfoMode::Breakdown { last_frame_trace, breakdown_traces } => {
            out.append(", \"breakdown\": {\"last_frame\": ");
            let cum = emit_cum(last_frame_trace);
            out.append(cum.as_str());
            let ghost bt = breakdown_traces@;
            let mut i: usize = 0;
            let mut inner: String = String::new();
            proof {
                assert(bt.skip(0) =~= bt);
                assert(inner@ =~= Seq::<char>::empty());
                assert(s_emit_breakdown_entries(bt.skip(bt.len() as int), bt.len() as int)
                    =~= Seq::<char>::empty());
            }
            while i < breakdown_traces.len()
                invariant
                    bt == breakdown_traces@,
                    i <= bt.len(),
                    inner@ + s_emit_breakdown_entries(bt.skip(i as int), i as int)
                        == s_emit_breakdown_entries(bt, 0),
                decreases bt.len() - i,
            {
                let e = breakdown_traces[i];
                inner.append(", \"");
                let l = strutil::dec_u64(i as u64);
                inner.append(l.as_str());
                inner.append("\": ");
                let c = emit_cum(&e);
                inner.append(c.as_str());
                proof {
                    assert(bt.skip(i as int)[0] == bt[i as int]);
                    assert(bt.skip(i as int).drop_first() =~= bt.skip(i + 1));
                    assert(bt[i as int] == e);
                }
                i = i + 1;
            }
            proof {
                assert(bt.skip(bt.len() as int).len() == 0);
                assert(inner@ =~= s_emit_breakdown_entries(bt, 0));
            }
            out.append(inner.as_str());
            out.append("}}");
            proof {
                assert(out@ =~= s_emit_trace(info@.time, info@.traces));
            }
        },
    }
    out
}

/// The canonical text of a `[duration, count]` pair.
fn emit_cum(c: &TraceCumulative) -> (r: String)
    ensures
        r@ == s_emit_cum(*c),
{
    let mut out: String = "[".to_owned();
    let d = strutil::dec_u64(c.duration);
    out.append(d.as_str());
    out.append(", ");
    let n = strutil::dec_u64(c.count);
    out.append(n.as_str());
    out.append("]");
    out
}

/// Decimal renderings hold only digits, and at least one.
proof fn lemma_dec_digits(n: nat)
    ensures
        strutil::spec_dec(n).len() >= 1,
        forall|k: int|
            0 <= k < strutil::spec_dec(n).len() ==> s_is_digit(#[trigger] strutil::spec_dec(n)[k]),
    decreases n,
{
    if n < 10 {
        assert(s_is_digit(strutil::digit_char(n)));
    } else {
        lemma_dec_digits(n / 10);
        assert(s_is_digit(strutil::digit_char(n % 10)));
        assert(strutil::spec_dec(n) == strutil::spec_dec(n / 10).push(
            strutil::digit_char(n % 10),
        ));
    }
}

/// A digit run bounded by a non-digit ends exactly at the bound.
proof fn lemma_digits_end_run(s: Seq<char>, i: int, j: int)
    requires
        0 <= i <= j <= s.len(),
        forall|k: int| i <= k < j ==> s_is_digit(#[trigger] s[k]),
        j == s.len() || !s_is_digit(s[j]),
    ensures
        s_digits_end(s, i) == j,
    decreases j - i,
{
    if i < j {
        lemma_digits_end_run(s, i + 1, j);
    }
}

/// Reading back the decimal digits of `n` gives `n`.
proof fn lemma_num_val_of_dec(s: Seq<char>, i: int, n: nat)
    requires
        0 <= i,
        i + strutil::spec_dec(n).len() <= s.len(),
        s.subrange(i, i + strutil::spec_dec(n).len()) == strutil::spec_dec(n),
    ensures
        s_num_val(s, i, i + strutil::spec_dec(n).len()) == n,
    decreases n,
{
    let d = strutil::spec_dec(n);
    if n < 10 {
        assert(s[i] == d[0]);
        assert(s_num_val(s, i, i + 1) == s_num_val(s, i, i) * 10 + (s[i] as int - 48) as nat);
        assert((strutil::digit_char(n) as int - 48) as nat == n);
    } else {
        let dp = strutil::spec_dec(n / 10);
        assert(d == dp.push(strutil::digit_char(n % 10)));
        assert(s.subrange(i, i + dp.len()) =~= dp) by {
            assert(forall|k: int| 0 <= k < dp.len() ==> s[i + k] == #[trigger] d[k]);
            assert(forall|k: int| 0 <= k < dp.len() ==> d[k] == dp[k]);
        }
        lemma_num_val_of_dec(s, i, n / 10);
        assert(s[i + d.len() - 1] == d[d.len() - 1]);
        assert(d[d.len() - 1] == strutil::digit_char(n % 10));
        assert((strutil::digit_char(n % 10) as int - 48) as nat == n % 10);
        assert(s_num_val(s, i, i + d.len()) == s_num_val(s, i, i + d.len() - 1) * 10 + (s[i
            + d.len() - 1] as int - 48) as nat);
        assert(n / 10 * 10 + n % 10 == n) by (nonlinear_arith);
    }
}

/// Parsing at the decimal digits of `v`, bounded by a non-digit, yields `v`.
proof fn lemma_parse_u64_of_dec(s: Seq<char>, i: int, v: u64)
    requires
        0 <= i,
        i + strutil::spec_dec(v as nat).len() <= s.len(),
        s.subrange(i, i + strutil::spec_dec(v as nat).len()) == strutil::spec_dec(v as nat),
        i + strutil::spec_dec(v as nat).len() == s.len() || !s_is_digit(
            s[i + strutil::spec_dec(v as nat).len()],
        ),
    ensures
        s_parse_u64(s, i) == Some((v, i + strutil::spec_dec(v as nat).len())),
{
    let d = strutil::spec_dec(v as nat);
    lemma_dec_digits(v as nat);
    assert(forall|k: int| i <= k < i + d.len() ==> s_is_digit(#[trigger] s[k])) by {
        assert(forall|k: int| 0 <= k < d.len() ==> s[i + k] == #[trigger] d[k]);
        assert(forall|k: int|
            i <= k < i + d.len() ==> #[trigger] s[k] == d[k - i] && s_is_digit(d[k - i]));
    }
    lemma_digits_end_run(s, i, i + d.len());
    lemma_num_val_of_dec(s, i, v as nat);
}

/// A part of an embedded piece is itself embedded, at the shifted position.
proof fn lemma_sub_at(s: Seq<char>, i: int, e: Seq<char>, off: int, part: Seq<char>)
    requires
        0 <= i,
        i + e.len() <= s.len(),
        s.subrange(i, i + e.len()) == e,
        0 <= off,
        off + part.len() <= e.len(),
        e.subrange(off, off + part.len()) == part,
    ensures
        s.subrange(i + off, i + off + part.len()) == part,
{
    assert(s.subrange(i + off, i + off + part.len()) =~= part) by {
        assert(forall|k: int| 0 <= k < e.len() ==> #[trigger] s[i + k] == e[k]);
        assert(forall|k: int| 0 <= k < part.len() ==> #[trigger] e[off + k] == part[k]);
        assert(forall|k: int|
            0 <= k < part.len() ==> #[trigger] s.subrange(i + off, i + off + part.len())[k] == s[i
                + off + k]);
    }
}

/// The contents of the punctuation literals, for the round-trip proofs.
proof fn lemma_literal_contents()
    ensures
        "["@ =~= seq!['['],
        ", "@ =~= seq![',', ' '],
        "]"@ =~= seq![']'],
        "\""@ =~= seq!['"'],
        "\": "@ =~= seq!['"', ':', ' '],
        ", \""@ =~= seq![',', ' ', '"'],
        "}}"@ =~= seq!['}', '}'],
        "}"@ =~= seq!['}'],
{
    reveal_strlit("[");
    reveal_strlit(", ");
    reveal_strlit("]");
    reveal_strlit("\"");
    reveal_strlit("\": ");
    reveal_strlit(", \"");
    reveal_strlit("}}");
    reveal_strlit("}");
}

/// Parsing at an embedded `[duration, count]` pair gives the pair back.
proof fn lemma_parse_emit_cum(s: Seq<char>, i: int, c: TraceCumulative)
    requires
        0 <= i,
        i + s_emit_cum(c).len() <= s.len(),
        s.subrange(i, i + s_emit_cum(c).len()) == s_emit_cum(c),
    ensures
        s_parse_cum(s, i) == Some((c, i + s_emit_cum(c).len())),
{
    lemma_parser_literals();
    lemma_literal_contents();
    let e = s_emit_cum(c);
    let dd = strutil::spec_dec(c.duration as nat);
    let dc = strutil::spec_dec(c.count as nat);
    lemma_dec_digits(c.duration as nat);
    lemma_dec_digits(c.count as nat);
    assert(e == "["@ + dd + ", "@ + dc + "]"@);
    assert(e.subrange(0, 1) =~= "["@);
    lemma_sub_at(s, i, e, 0, "["@);
    assert(s_lit_at(s, i, "["@));
    assert(e.subrange(1, 1 + dd.len() as int) =~= dd);
    lemma_sub_at(s, i, e, 1, dd);
    assert(s[i + 1 + dd.len() as int] == e[1 + dd.len() as int]);
    assert(e[1 + dd.len() as int] == ',');
    assert(!s_is_digit(','));
    lemma_parse_u64_of_dec(s, i + 1, c.duration);
    let i2 = i + 1 + dd.len() as int;
    assert(e.subrange(1 + dd.len() as int, 3 + dd.len() as int) =~= ", "@);
    lemma_sub_at(s, i, e, 1 + dd.len() as int, ", "@);
    assert(s_lit_at(s, i2, ", "@));
    let i3 = i2 + 2;
    assert(e.subrange(3 + dd.len() as int, 3 + dd.len() + dc.len() as int) =~= dc);
    lemma_sub_at(s, i, e, 3 + dd.len() as int, dc);
    assert(s[i3 + dc.len() as int] == e[3 + dd.len() as int + dc.len() as int]);
    assert(e[3 + dd.len() as int + dc.len() as int] == ']');
    assert(!s_is_digit(']'));
    lemma_parse_u64_of_dec(s, i3, c.count);
    let i4 = i3 + dc.len() as int;
    assert(e.subrange(3 + dd.len() as int + dc.len() as int, 4 + dd.len() as int + dc.len() as int) =~= "]"@);
    lemma_sub_at(s, i, e, 3 + dd.len() as int + dc.len() as int, "]"@);
    assert(s_lit_at(s, i4, "]"@));
    assert(TraceCumulative { duration: c.duration, count: c.count } == c);
}

/// Parsing at an embedded line entry gives the entry back.
proof fn lemma_parse_emit_line_entry(s: Seq<char>, i: int, e: (u32, TraceCumulative))
    requires
        0 <= i,
        i + s_emit_line_entry(e).len() <= s.len(),
        s.subrange(i, i + s_emit_line_entry(e).len()) == s_emit_line_entry(e),
    ensures
        s_parse_line_entry(s, i) == Some((e, i + s_emit_line_entry(e).len())),
{
    lemma_parser_literals();
    lemma_literal_contents();
    let t = s_emit_line_entry(e);
    let dl = strutil::spec_dec(e.0 as nat);
    let ec = s_emit_cum(e.1);
    lemma_dec_digits(e.0 as nat);
    assert(t == "\""@ + dl + "\": "@ + ec);
    assert(t.subrange(0, 1) =~= "\""@);
    lemma_sub_at(s, i, t, 0, "\""@);
    assert(s_lit_at(s, i, "\""@));
    assert(t.subrange(1, 1 + dl.len() as int) =~= dl);
    lemma_sub_at(s, i, t, 1, dl);
    assert(s[i + 1 + dl.len() as int] == t[1 + dl.len() as int]);
    assert(t[1 + dl.len() as int] == '"');
    assert(!s_is_digit('"'));
    lemma_parse_u64_of_dec(s, i + 1, e.0 as u64);
    let i2 = i + 1 + dl.len() as int;
    assert(t.subrange(1 + dl.len() as int, 4 + dl.len() as int) =~= "\": "@);
    lemma_sub_at(s, i, t, 1 + dl.len() as int, "\": "@);
    assert(s_lit_at(s, i2, "\": "@));
    let i3 = i2 + 3;
    assert(t.subrange(4 + dl.len() as int, 4 + dl.len() as int + ec.len() as int) =~= ec);
    lemma_sub_at(s, i, t, 4 + dl.len() as int, ec);
    lemma_parse_emit_cum(s, i3, e.1);
    assert((e.0 as u64) <= u32::MAX);
}

/// Parsing at embedded line entries, terminated by a closing brace, gives
/// the entries back.
proof fn lemma_parse_emit_line_entries(s: Seq<char>, i: int, entries: Seq<(u32, TraceCumulative)>)
    requires
        0 <= i,
        i + s_emit_line_entries(entries).len() < s.len(),
        s.subrange(i, i + s_emit_line_entries(entries).len()) == s_emit_line_entries(entries),
        s[i + s_emit_line_entries(entries).len()] == '}',
    ensures
        s_parse_line_entries(s, i) == Some((entries, i + s_emit_line_entries(entries).len())),
    decreases entries.len(),
{
    lemma_parser_literals();
    lemma_literal_contents();
    let t = s_emit_line_entries(entries);
    let parts = entries.map_values(|e: (u32, TraceCumulative)| s_emit_line_entry(e));
    if entries.len() == 0 {
        assert(t.len() == 0);
        assert(s[i] == '}');
        assert(s_parse_line_entries(s, i) == Some((Seq::<(u32, TraceCumulative)>::empty(), i)));
        assert(entries =~= Seq::<(u32, TraceCumulative)>::empty());
    } else {
        let e0 = s_emit_line_entry(entries[0]);
        let rest = entries.drop_first();
        let trest = s_emit_line_entries(rest);
        // Split the joined text at the first entry.
        assert(t =~= if entries.len() == 1 {
            e0
        } else {
            e0 + ", "@ + trest
        }) by {
            lemma_join_head(parts, ", "@);
            assert(parts[0] == e0);
            assert(parts.drop_first() =~= rest.map_values(
                |e: (u32, TraceCumulative)| s_emit_line_entry(e),
            ));
        }
        assert(t.subrange(0, e0.len() as int) =~= e0);
        lemma_sub_at(s, i, t, 0, e0);
        lemma_parse_emit_line_entry(s, i, entries[0]);
        let j = i + e0.len() as int;
        lemma_dec_digits(entries[0].0 as nat);
        assert(e0.len() > 0);
        assert(s[i] == e0[0]);
        assert(e0[0] == '"');
        assert(s[i] != '}');
        if entries.len() == 1 {
            assert(s[j] == '}');
            assert(!s_lit_at(s, j, ", "@)) by {
                if s_lit_at(s, j, ", "@) {
                    assert(s.subrange(j, j + 2)[0] == ',');
                    assert(s[j] == ',');
                }
            }
            assert(s_parse_line_entries(s, i) == Some((seq![entries[0]], j)));
            assert(seq![entries[0]] =~= entries);
        } else {
            assert(t.subrange(e0.len() as int, e0.len() as int + 2) =~= ", "@);
            lemma_sub_at(s, i, t, e0.len() as int, ", "@);
            assert(s_lit_at(s, j, ", "@));
            assert(t.subrange(e0.len() as int + 2, t.len() as int) =~= trest);
            lemma_sub_at(s, i, t, e0.len() as int + 2, trest);
            assert(s[j + 2 + trest.len() as int] == '}');
            lemma_parse_emit_line_entries(s, j + 2, rest);
            assert(rest.len() > 0);
            assert(seq![entries[0]] + rest =~= entries);
        }
    }
}

/// The first element of a joined list stands at its head.
proof fn lemma_join_head(parts: Seq<Seq<char>>, sep: Seq<char>)
    requires
        parts.len() >= 1,
    ensures
        parts.len() == 1 ==> s_join(parts, sep) == parts[0],
        parts.len() > 1 ==> s_join(parts, sep) == parts[0] + sep + s_join(
            parts.drop_first(),
            sep,
        ),
    decreases parts.len(),
{
    if parts.len() == 2 {
        assert(parts.drop_last() =~= seq![parts[0]]);
        assert(parts.drop_first() =~= seq![parts[1]]);
        assert(s_join(seq![parts[0]], sep) == parts[0]);
        assert(s_join(seq![parts[1]], sep) == parts[1]);
        assert(s_join(parts, sep) == s_join(parts.drop_last(), sep) + sep + parts.last());
        assert(s_join(parts, sep) =~= parts[0] + sep + s_join(parts.drop_first(), sep));
    } else if parts.len() > 2 {
        let q = parts.drop_last();
        lemma_join_head(q, sep);
        assert(q[0] == parts[0]);
        let pf = parts.drop_first();
        assert(pf.drop_last() =~= q.drop_first());
        assert(pf.last() == parts.last());
        assert(s_join(pf, sep) == s_join(pf.drop_last(), sep) + sep + pf.last());
        assert(s_join(parts, sep) == s_join(q, sep) + sep + parts.last());
        assert(s_join(q, sep) == q[0] + sep + s_join(q.drop_first(), sep));
        assert(s_join(parts, sep) =~= parts[0] + sep + s_join(pf, sep));
    }
}

/// Parsing at embedded breakdown entries, terminated by a closing brace,
/// gives the entries back.
proof fn lemma_parse_emit_breakdown_entries(
    s: Seq<char>,
    i: int,
    entries: Seq<TraceCumulative>,
    idx: int,
)
    requires
        0 <= i,
        0 <= idx,
        idx + entries.len() <= u64::MAX,
        i + s_emit_breakdown_entries(entries, idx).len() < s.len(),
        s.subrange(i, i + s_emit_breakdown_entries(entries, idx).len())
            == s_emit_breakdown_entries(entries, idx),
        s[i + s_emit_breakdown_entries(entries, idx).len()] == '}',
    ensures
        s_parse_breakdown_entries(s, i, idx) == Some(
            (entries, i + s_emit_breakdown_entries(entries, idx).len()),
        ),
    decreases entries.len(),
{
    lemma_parser_literals();
    lemma_literal_contents();
    let t = s_emit_breakdown_entries(entries, idx);
    if entries.len() == 0 {
        assert(s[i] == '}');
        assert(entries =~= Seq::<TraceCumulative>::empty());
    } else {
        let di = strutil::spec_dec(idx as nat);
        let ec = s_emit_cum(entries[0]);
        let rest = entries.drop_first();
        let trest = s_emit_breakdown_entries(rest, idx + 1);
        assert(t == ", \""@ + di + "\": "@ + ec + trest);
        lemma_dec_digits(idx as nat);
        assert(t.subrange(0, 3) =~= ", \""@);
        lemma_sub_at(s, i, t, 0, ", \""@);
        assert(s[i] == ',');
        assert(s[i] != '}');
        assert(s_lit_at(s, i, ", \""@));
        assert(t.subrange(3, 3 + di.len() as int) =~= di);
        lemma_sub_at(s, i, t, 3, di);
        assert(s[i + 3 + di.len() as int] == t[3 + di.len() as int]);
        assert(t[3 + di.len() as int] == '"');
        assert(!s_is_digit('"'));
        lemma_parse_u64_of_dec(s, i + 3, idx as u64);
        let j = i + 3 + di.len() as int;
        assert(t.subrange(3 + di.len() as int, 6 + di.len() as int) =~= "\": "@);
        lemma_sub_at(s, i, t, 3 + di.len() as int, "\": "@);
        assert(s_lit_at(s, j, "\": "@));
        assert(t.subrange(6 + di.len() as int, 6 + di.len() as int + ec.len() as int) =~= ec);
        lemma_sub_at(s, i, t, 6 + di.len() as int, ec);
        lemma_parse_emit_cum(s, j + 3, entries[0]);
        let k = j + 3 + ec.len() as int;
        assert(t.subrange(
            6 + di.len() as int + ec.len() as int,
            t.len() as int,
        ) =~= trest);
        lemma_sub_at(s, i, t, 6 + di.len() as int + ec.len() as int, trest);
        assert(s[k + trest.len() as int] == '}');
        lemma_parse_emit_breakdown_entries(s, k, rest, idx + 1);
        assert(seq![entries[0]] + rest =~= entries);
    }
}

/// The escaped form of one histogram character.
pub open spec fn s_esc_char(c: char) -> Seq<char> {
    if c == '\n' {
        seq!['\\', 'n']
    } else if c == '"' {
        seq!['\\', '"']
    } else if c == '\\' {
        seq!['\\', '\\']
    } else {
        seq![c]
    }
}

/// The escaped text decomposes at its first character.
proof fn lemma_hist_head(text: Seq<char>)
    requires
        text.len() >= 1,
    ensures
        s_emit_hist_text(text) == s_esc_char(text[0]) + s_emit_hist_text(text.drop_first()),
    decreases text.len(),
{
    if text.len() == 1 {
        assert(text.drop_last() =~= Seq::<char>::empty());
        assert(text.drop_first() =~= Seq::<char>::empty());
        assert(s_emit_hist_text(text) =~= s_esc_char(text[0]) + s_emit_hist_text(
            text.drop_first(),
        ));
    } else {
        let q = text.drop_last();
        lemma_hist_head(q);
        assert(q[0] == text[0]);
        let tf = text.drop_first();
        assert(tf.drop_last() =~= q.drop_first());
        assert(tf.last() == text.last());
        assert(s_emit_hist_text(tf) == s_emit_hist_text(tf.drop_last()) + (if tf.last() == '\n' {
            seq!['\\', 'n']
        } else if tf.last() == '"' {
            seq!['\\', '"']
        } else if tf.last() == '\\' {
            seq!['\\', '\\']
        } else {
            seq![tf.last()]
        }));
        assert(s_emit_hist_text(text) =~= s_esc_char(text[0]) + s_emit_hist_text(tf));
    }
}

/// Parsing at the escaped histogram text, up to its closing quote, gives
/// the text back.
proof fn lemma_parse_emit_string(s: Seq<char>, i: int, text: Seq<char>)
    requires
        0 <= i,
        i + s_emit_hist_text(text).len() < s.len(),
        s.subrange(i, i + s_emit_hist_text(text).len()) == s_emit_hist_text(text),
        s[i + s_emit_hist_text(text).len()] == '"',
    ensures
        s_parse_string(s, i) == Some((text, i + s_emit_hist_text(text).len() + 1)),
    decreases text.len(),
{
    let t = s_emit_hist_text(text);
    if text.len() == 0 {
        assert(s[i] == '"');
        assert(text =~= Seq::<char>::empty());
    } else {
        lemma_hist_head(text);
        let c0 = text[0];
        let esc = s_esc_char(c0);
        let rest = text.drop_first();
        let trest = s_emit_hist_text(rest);
        assert(t == esc + trest);
        assert(t.subrange(esc.len() as int, t.len() as int) =~= trest);
        lemma_sub_at(s, i, t, esc.len() as int, trest);
        assert(s[i + esc.len() as int + trest.len() as int] == '"');
        lemma_parse_emit_string(s, i + esc.len() as int, rest);
        assert(forall|k: int| 0 <= k < t.len() ==> #[trigger] s[i + k] == t[k]);
        assert(t.len() >= esc.len());
        assert(s[i + 0] == t[0]);
        assert(s[i] == t[0]);
        assert(t[0] == esc[0]);
        if esc.len() == 2 {
            assert(s[i + 1] == t[1]);
            assert(t[1] == esc[1]);
        }
        if c0 == '\n' {
            assert(s[i] == '\\' && s[i + 1] == 'n');
            assert(seq![
                if 'n' == 'n' {
                    '\n'
                } else {
                    'n'
                },
            ] + rest =~= text);
        } else if c0 == '"' {
            assert(s[i] == '\\' && s[i + 1] == '"');
            assert(seq![c0] + rest =~= text);
        } else if c0 == '\\' {
            assert(s[i] == '\\' && s[i + 1] == '\\');
            assert(seq![c0] + rest =~= text);
        } else {
            assert(s[i] == c0);
            assert(seq![c0] + rest =~= text);
        }
    }
}

/// Parsing the canonical text of a trace object gives back exactly the
/// time and payload it was emitted from: the schema loses nothing.
#[verifier::rlimit(80)]
pub proof fn lemma_parse_emit_trace(time: u64, mode: STraceInfoMode)
    requires
        mode matches STraceInfoMode::Breakdown { breakdown_traces, .. } ==> breakdown_traces.len()
            <= u64::MAX,
    ensures
        s_parse_trace(s_emit_trace(time, mode)) == Some((time, mode)),
{
    lemma_parser_literals();
    lemma_literal_contents();
    lemma_key_literal_contents();
    let s = s_emit_trace(time, mode);
    let dt = strutil::spec_dec(time as nat);
    lemma_dec_digits(time as nat);
    assert(s.subrange(0, s.len() as int) =~= s);
    match mode {
        STraceInfoMode::Lines(entries) => {
            let te = s_emit_line_entries(entries);
            assert(s == "{\"time\": "@ + dt + ", \"lines\": {"@ + te + "}}"@);
            assert(s.subrange(0, 9) =~= "{\"time\": "@);
            assert(s_lit_at(s, 0, "{\"time\": "@));
            assert(s.subrange(9, 9 + dt.len() as int) =~= dt);
            assert(s[9 + dt.len() as int] == ',');
            assert(!s_is_digit(','));
            lemma_parse_u64_of_dec(s, 9, time);
            let i = 9 + dt.len() as int;
            assert(s.subrange(i, i + 12) =~= ", \"lines\": {"@);
            assert(s_lit_at(s, i, ", \"lines\": {"@));
            assert(s.subrange(i + 12, i + 12 + te.len() as int) =~= te);
            assert(s[i + 12 + te.len() as int] == '}');
            lemma_parse_emit_line_entries(s, i + 12, entries);
            let j = i + 12 + te.len() as int;
            assert(s.subrange(j, j + 2) =~= "}}"@);
            assert(s_lit_at(s, j, "}}"@));
            assert(j + 2 == s.len());
        },
        STraceInfoMode::Histogram(text) => {
            let th = s_emit_hist_text(text);
            assert(s == "{\"time\": "@ + dt + ", \"histogram\": \""@ + th + "\"}"@);
            assert(s.subrange(0, 9) =~= "{\"time\": "@);
            assert(s_lit_at(s, 0, "{\"time\": "@));
            assert(s.subrange(9, 9 + dt.len() as int) =~= dt);
            assert(s[9 + dt.len() as int] == ',');
            assert(!s_is_digit(','));
            lemma_parse_u64_of_dec(s, 9, time);
            let i = 9 + dt.len() as int;
            assert(!s_lit_at(s, i, ", \"lines\": {"@)) by {
                if s_lit_at(s, i, ", \"lines\": {"@) {
                    assert(s.subrange(i, i + 12)[3] == 'l');
                    assert(s[i + 3] == 'l');
                }
                assert(s[i + 3] == 'h');
            }
            assert(s.subrange(i, i + 16) =~= ", \"histogram\": \""@);
            assert(s_lit_at(s, i, ", \"histogram\": \""@));
            assert(s.subrange(i + 16, i + 16 + th.len() as int) =~= th);
            assert(s[i + 16 + th.len() as int] == '"');
            lemma_parse_emit_string(s, i + 16, text);
            let j = i + 16 + th.len() as int + 1;
            assert(s.subrange(j, j + 1) =~= "}"@);
            assert(s_lit_at(s, j, "}"@));
            assert(j + 1 == s.len());
        },
        STraceInfoMode::Breakdown { last_frame_trace, breakdown_traces } => {
            let ec = s_emit_cum(last_frame_trace);
            let tb = s_emit_breakdown_entries(breakdown_traces, 0);
            assert(s == "{\"time\": "@ + dt + ", \"breakdown\": {\"last_frame\": "@ + ec + tb
                + "}}"@);
            assert(s.subrange(0, 9) =~= "{\"time\": "@);
            assert(s_lit_at(s, 0, "{\"time\": "@));
            assert(s.subrange(9, 9 + dt.len() as int) =~= dt);
            assert(s[9 + dt.len() as int] == ',');
            assert(!s_is_digit(','));
            lemma_parse_u64_of_dec(s, 9, time);
            let i = 9 + dt.len() as int;
            assert(!s_lit_at(s, i, ", \"lines\": {"@)) by {
                if s_lit_at(s, i, ", \"lines\": {"@) {
                    assert(s.subrange(i, i + 12)[3] == 'l');
                    assert(s[i + 3] == 'l');
                }
                assert(s[i + 3] == 'b');
            }
            assert(!s_lit_at(s, i, ", \"histogram\": \""@)) by {
                if s_lit_at(s, i, ", \"histogram\": \""@) {
                    assert(s.subrange(i, i + 16)[3] == 'h');
                    assert(s[i + 3] == 'h');
                }
                assert(s[i + 3] == 'b');
            }
            assert(s.subrange(i, i + 30) =~= ", \"breakdown\": {\"last_frame\": "@);
            assert(s_lit_at(s, i, ", \"breakdown\": {\"last_frame\": "@));
            assert(s.subrange(i + 30, i + 30 + ec.len() as int) =~= ec);
            lemma_parse_emit_cum(s, i + 30, last_frame_trace);
            let j = i + 30 + ec.len() as int;
            assert(s.subrange(j, j + tb.len() as int) =~= tb);
            assert(s[j + tb.len() as int] == '}');
            lemma_parse_emit_breakdown_entries(s, j, breakdown_traces, 0);
            let k = j + tb.len() as int;
            assert(s.subrange(k, k + 2) =~= "}}"@);
            assert(s_lit_at(s, k, "}}"@));
            assert(k + 2 == s.len());
        },
    }
}

/// The third character of each mode key tells the keys apart; the first is
/// the comma that bounds the time digits.
proof fn lemma_key_literal_contents()
    ensures
        "{\"time\": "@ =~= seq!['{', '"', 't', 'i', 'm', 'e', '"', ':', ' '],
        ", \"lines\": {"@ =~= seq![',', ' ', '"', 'l', 'i', 'n', 'e', 's', '"', ':', ' ', '{'],
        ", \"histogram\": \""@ =~= seq![
            ',',
            ' ',
            '"',
            'h',
            'i',
            's',
            't',
            'o',
            'g',
            'r',
            'a',
            'm',
            '"',
            ':',
            ' ',
            '"',
        ],
        ", \"breakdown\": {\"last_frame\": "@ =~= seq![
            ',',
            ' ',
            '"',
            'b',
            'r',
            'e',
            'a',
            'k',
            'd',
            'o',
            'w',
            'n',
            '"',
            ':',
            ' ',
            '{',
            '"',
            'l',
            'a',
            's',
            't',
            '_',
            'f',
            'r',
            'a',
            'm',
            'e',
            '"',
            ':',
            ' ',
        ],
        "\"}"@ =~= seq!['"', '}'],
{
    reveal_strlit("{\"time\": ");
    reveal_strlit(", \"lines\": {");
    reveal_strlit(", \"histogram\": \"");
    reveal_strlit(", \"breakdown\": {\"last_frame\": ");
    reveal_strlit("\"}");
}

} // verus!
