//! Fuzzy ranking of search candidates: score every label, order by score
//! (best first), break ties by shorter label and then by position.
use vstd::prelude::*;

use crate::program::{s_display, SymbolInfo};
use crate::strutil;
use crate::strutil::{spec_dec, spec_hex};
use crate::trace_structs::{CallInstruction, SCallInstruction, SInstructionType};

verus! {

/// What the skim fuzzy matcher scores a candidate against a pattern: a
/// function of the two texts alone; `None` where they do not match.
pub uninterp spec fn fuzzy_score(choice: Seq<char>, pattern: Seq<char>) -> Option<i64>;

/// Relies on fuzzy_matcher's `SkimMatcherV2::default().fuzzy_match`: the
/// score depends on the candidate and pattern text alone.
#[verifier::external_body]
fn fuzzy_match_score(choice: &str, pattern: &str) -> (r: Option<i64>)
    ensures
        r == fuzzy_score(choice@, pattern@),
{
    fuzzy_matcher::FuzzyMatcher::fuzzy_match(
        &fuzzy_matcher::skim::SkimMatcherV2::default(),
        choice,
        pattern,
    )
}

/// A candidate that can be ranked: it shows itself as a one-line label.
pub trait Label {
    /// The label text, at the level of the model.
    spec fn label_spec(&self) -> Seq<char>;

    /// The label the candidate is matched and shown under.
    fn label(&self) -> (r: String)
        ensures
            r@ == self.label_spec(),
    ;
}

impl Label for SymbolInfo {
    open spec fn label_spec(&self) -> Seq<char> {
        s_display(self@)
    }

    fn label(&self) -> (r: String) {
        self.display_name().to_owned()
    }
}

/// The one-line description of a call site, as listed in search results.
pub open spec fn s_ci_label(ci: SCallInstruction) -> Seq<char> {
    spec_dec(ci.relative_ip as nat) + ": "@ + (match ci.instruction {
        SInstructionType::DynamicSymbol(f) => "(D) "@ + f,
        SInstructionType::Function(f) => f,
        SInstructionType::Register(r, d) => "(I) register "@ + (match d {
            Some(x) => "["@ + r + "+0x"@ + spec_hex((x as u64) as nat) + "]"@,
            None => r,
        }),
        SInstructionType::Manual => "Manual "@ + spec_dec(ci.relative_ip as nat) + "-"@
            + spec_dec(ci.relative_ip as nat + ci.length as nat),
        SInstructionType::Unknown => "(UNKNOWN)"@,
    })
}

impl Label for CallInstruction {
    open spec fn label_spec(&self) -> Seq<char> {
        s_ci_label(self@)
    }

    fn label(&self) -> (r: String) {
        let mut out = strutil::dec_u64(self.relative_ip() as u64);
        out.append(": ");
        match self.get_instruction() {
            crate::trace_structs::InstructionType::DynamicSymbol(f) => {
                out.append("(D) ");
                out.append(f.0.as_str());
            },
            crate::trace_structs::InstructionType::Function(f) => {
                out.append(f.0.as_str());
            },
            crate::trace_structs::InstructionType::Register(reg, d) => {
                out.append("(I) register ");
                match d {
                    Some(x) => {
                        out.append("[");
                        out.append(reg.as_str());
                        out.append("+0x");
                        let ux: u64 = *x as u64;
                        let h = strutil::hex_u64(ux);
                        out.append(h.as_str());
                        out.append("]");
                    },
                    None => {
                        out.append(reg.as_str());
                    },
                }
            },
            crate::trace_structs::InstructionType::Manual => {
                out.append("Manual ");
                let s = strutil::dec_u64(self.relative_ip() as u64);
                out.append(s.as_str());
                out.append("-");
                let e = strutil::dec_u64(self.relative_ip() as u64 + self.length() as u64);
                out.append(e.as_str());
            },
            crate::trace_structs::InstructionType::Unknown => {
                out.append("(UNKNOWN)");
            },
        }
        proof {
            assert(out@ =~= s_ci_label(self@));
        }
        out
    }
}

/// The candidate at `idx` matches the pattern at all.
pub open spec fn s_scored<T: Label>(items: Seq<T>, pattern: Seq<char>, idx: int) -> bool {
    fuzzy_score(items[idx].label_spec(), pattern) is Some
}

/// Candidate `a` ranks no worse than candidate `b`: higher score first,
/// then the shorter label (in characters), then the earlier position.
pub open spec fn s_rank_leq<T: Label>(items: Seq<T>, pattern: Seq<char>, a: int, b: int) -> bool {
    let sa = fuzzy_score(items[a].label_spec(), pattern)->0;
    let sb = fuzzy_score(items[b].label_spec(), pattern)->0;
    ||| sa > sb
    ||| (sa == sb && items[a].label_spec().len() < items[b].label_spec().len())
    ||| (sa == sb && items[a].label_spec().len() == items[b].label_spec().len() && a <= b)
}

/// One scored candidate: score, label length and position.
struct Candidate {
    score: i64,
    label_len: usize,
    idx: usize,
}

/// `a` sorts no later than `b`.
spec fn s_cand_leq(a: Candidate, b: Candidate) -> bool {
    ||| a.score > b.score
    ||| (a.score == b.score && a.label_len < b.label_len)
    ||| (a.score == b.score && a.label_len == b.label_len && a.idx <= b.idx)
}

/// `a` sorts strictly before `b`.
spec fn s_cand_less(a: Candidate, b: Candidate) -> bool {
    ||| a.score > b.score
    ||| (a.score == b.score && a.label_len < b.label_len)
    ||| (a.score == b.score && a.label_len == b.label_len && a.idx < b.idx)
}

/// The candidate is consistent with position `idx` of the items.
spec fn s_cand_ok<T: Label>(items: Seq<T>, pattern: Seq<char>, c: Candidate) -> bool {
    &&& c.idx < items.len()
    &&& fuzzy_score(items[c.idx as int].label_spec(), pattern) == Some(c.score)
    &&& c.label_len == items[c.idx as int].label_spec().len()
}

/// Rank matches using fuzzy search and return the positions of the top
/// results, best first. Every returned position matched the pattern; a
/// matching position is left out only when the result is already full of
/// positions that rank no worse.
pub fn rank_fn<T: Label>(items: &Vec<T>, search: &str, n_results: usize) -> (r: Vec<usize>)
    ensures
        r@.len() <= n_results,
        forall|k: int|
            0 <= k < r@.len() ==> (#[trigger] r@[k]) < items@.len() && s_scored(
                items@,
                search@,
                r@[k] as int,
            ),
        forall|a: int, b: int|
            0 <= a < b < r@.len() ==> s_rank_leq(
                items@,
                search@,
                #[trigger] r@[a] as int,
                #[trigger] r@[b] as int,
            ),
        forall|a: int, b: int| 0 <= a < b < r@.len() ==> r@[a] != r@[b],
        forall|idx: int|
            0 <= idx < items@.len() && s_scored(items@, search@, idx) && !r@.contains(
                idx as usize,
            ) ==> r@.len() == n_results && (forall|k: int|
                0 <= k < r@.len() ==> s_rank_leq(items@, search@, #[trigger] r@[k] as int, idx)),
{
    let ghost iv = items@;
    let ghost q = search@;
    // Insert every matching candidate into a list kept sorted.
    let mut sorted: Vec<Candidate> = Vec::new();
    let mut i: usize = 0;
    while i < items.len()
        invariant
            iv == items@,
            q == search@,
            i <= iv.len(),
            forall|p: int| 0 <= p < sorted@.len() ==> s_cand_ok(iv, q, #[trigger] sorted@[p]),
            forall|p: int| 0 <= p < sorted@.len() ==> (#[trigger] sorted@[p]).idx < i,
            forall|p1: int, p2: int|
                0 <= p1 < p2 < sorted@.len() ==> (#[trigger] sorted@[p1]).idx != (
                #[trigger] sorted@[p2]).idx,
            forall|p1: int, p2: int|
                0 <= p1 < p2 < sorted@.len() ==> s_cand_leq(
                    #[trigger] sorted@[p1],
                    #[trigger] sorted@[p2],
                ),
            forall|idx: int|
                0 <= idx < i && s_scored(iv, q, idx) ==> exists|p: int|
                    0 <= p < sorted@.len() && (#[trigger] sorted@[p]).idx == idx,
        decreases iv.len() - i,
    {
        let lbl = items[i].label();
        match fuzzy_match_score(lbl.as_str(), search) {
            Some(score) => {
                let c = Candidate { score, label_len: lbl.unicode_len(), idx: i };
                proof {
                    assert(iv[i as int].label_spec() == lbl@);
                    assert(s_cand_ok(iv, q, c));
                }
                insert_candidate(&mut sorted, c);
            },
            None => {
                proof {
                    assert(iv[i as int].label_spec() == lbl@);
                    assert(!s_scored(iv, q, i as int));
                }
            },
        }
        i = i + 1;
    }
    // Keep the best `n_results`.
    let mut r: Vec<usize> = Vec::new();
    let mut k: usize = 0;
    while k < sorted.len() && k < n_results
        invariant
            iv == items@,
            q == search@,
            forall|p: int| 0 <= p < sorted@.len() ==> s_cand_ok(iv, q, #[trigger] sorted@[p]),
            forall|p1: int, p2: int|
                0 <= p1 < p2 < sorted@.len() ==> (#[trigger] sorted@[p1]).idx != (
                #[trigger] sorted@[p2]).idx,
            forall|p1: int, p2: int|
                0 <= p1 < p2 < sorted@.len() ==> s_cand_leq(
                    #[trigger] sorted@[p1],
                    #[trigger] sorted@[p2],
                ),
            k <= sorted@.len(),
            k <= n_results,
            r@.len() == k,
            forall|p: int| 0 <= p < k ==> (#[trigger] r@[p]) == sorted@[p].idx,
        decreases sorted@.len() - k,
    {
        r.push(sorted[k].idx);
        k = k + 1;
    }
    proof {
        let rv = r@;
        assert forall|a: int, b: int| 0 <= a < b < rv.len() implies s_rank_leq(
            iv,
            q,
            #[trigger] rv[a] as int,
            #[trigger] rv[b] as int,
        ) && rv[a] != rv[b] by {
            assert(rv[a] == sorted@[a].idx && rv[b] == sorted@[b].idx);
            assert(s_cand_leq(sorted@[a], sorted@[b]));
        }
        assert forall|idx: int|
            0 <= idx < iv.len() && s_scored(iv, q, idx) && !rv.contains(idx as usize) implies rv.len()
            == n_results && (forall|k2: int|
            0 <= k2 < rv.len() ==> s_rank_leq(iv, q, #[trigger] rv[k2] as int, idx)) by {
            let p = choose|p: int| 0 <= p < sorted@.len() && (#[trigger] sorted@[p]).idx == idx;
            assert(p >= rv.len()) by {
                if p < rv.len() {
                    assert(rv[p] == sorted@[p].idx);
                    assert(rv.contains(idx as usize));
                }
            }
            assert(rv.len() == n_results);
            assert forall|k2: int| 0 <= k2 < rv.len() implies s_rank_leq(
                iv,
                q,
                #[trigger] rv[k2] as int,
                idx,
            ) by {
                assert(rv[k2] == sorted@[k2].idx);
                assert(s_cand_leq(sorted@[k2], sorted@[p]));
            }
        }
    }
    r
}

/// No candidate pair escapes the order: where `a` does not strictly
/// precede `b`, `b` ranks no worse than `a`.
proof fn lemma_cand_total(a: Candidate, b: Candidate)
    ensures
        s_cand_less(a, b) || s_cand_leq(b, a),
{
}

/// Insert one candidate into the sorted list, after every candidate it
/// does not strictly precede, so that equal ranks keep arrival order.
fn insert_candidate(sorted: &mut Vec<Candidate>, c: Candidate)
    requires
        forall|p1: int, p2: int|
            0 <= p1 < p2 < old(sorted)@.len() ==> s_cand_leq(
                #[trigger] old(sorted)@[p1],
                #[trigger] old(sorted)@[p2],
            ),
        forall|p: int|
            0 <= p < old(sorted)@.len() ==> (#[trigger] old(sorted)@[p]).idx != c.idx,
        forall|p1: int, p2: int|
            0 <= p1 < p2 < old(sorted)@.len() ==> (#[trigger] old(sorted)@[p1]).idx != (
            #[trigger] old(sorted)@[p2]).idx,
    ensures
        final(sorted)@.len() == old(sorted)@.len() + 1,
        forall|p1: int, p2: int|
            0 <= p1 < p2 < final(sorted)@.len() ==> s_cand_leq(
                #[trigger] final(sorted)@[p1],
                #[trigger] final(sorted)@[p2],
            ),
        forall|p: int|
            0 <= p < final(sorted)@.len() ==> (#[trigger] final(sorted)@[p]) == c || old(
                sorted,
            )@.contains(final(sorted)@[p]),
        forall|p: int|
            0 <= p < old(sorted)@.len() ==> final(sorted)@.contains(#[trigger] old(sorted)@[p]),
        final(sorted)@.contains(c),
        forall|p1: int, p2: int|
            0 <= p1 < p2 < final(sorted)@.len() ==> (#[trigger] final(sorted)@[p1]).idx != (
            #[trigger] final(sorted)@[p2]).idx,
{
    let ghost sv = sorted@;
    let mut pos: usize = 0;
    while pos < sorted.len() && !cand_less(&c, &sorted[pos])
        invariant
            sv == sorted@,
            pos <= sv.len(),
            forall|j: int| 0 <= j < pos ==> s_cand_leq(#[trigger] sv[j], c),
        decreases sv.len() - pos,
    {
        proof {
            lemma_cand_total(c, sv[pos as int]);
        }
        pos = pos + 1;
    }
    proof {
        if pos < sv.len() {
            assert(s_cand_less(c, sv[pos as int]));
        }
    }
    sorted.insert(pos, c);
    proof {
        let fv = sorted@;
        assert(fv =~= sv.take(pos as int) + seq![c] + sv.skip(pos as int));
        assert(forall|k: int| 0 <= k < pos ==> fv[k] == sv[k]);
        assert(fv[pos as int] == c);
        assert(forall|k: int| pos < k < fv.len() ==> fv[k] == sv[k - 1]);
        assert forall|p1: int, p2: int| 0 <= p1 < p2 < fv.len() implies s_cand_leq(
            #[trigger] fv[p1],
            #[trigger] fv[p2],
        ) by {
            if p2 < pos {
            } else if p1 == pos as int && p2 > pos {
                assert(s_cand_less(c, sv[pos as int]));
                assert(p2 == pos + 1 || s_cand_leq(sv[pos as int], sv[p2 - 1]));
            } else if p1 < pos && p2 == pos as int {
                assert(s_cand_leq(sv[p1], c));
            } else if p1 < pos && p2 > pos {
                assert(s_cand_leq(sv[p1], sv[p2 - 1])) by {
                    if p1 < p2 - 1 {
                    } else {
                        assert(s_cand_leq(sv[p1], c) && s_cand_less(c, sv[pos as int]));
                    }
                }
            } else if p1 > pos {
            }
        }
        assert forall|p: int| 0 <= p < fv.len() implies (#[trigger] fv[p]) == c || sv.contains(
            fv[p],
        ) by {
            if p < pos {
                assert(sv[p] == fv[p]);
            } else if p > pos {
                assert(sv[p - 1] == fv[p]);
            }
        }
        assert forall|p: int| 0 <= p < sv.len() implies fv.contains(#[trigger] sv[p]) by {
            if p < pos {
                assert(fv[p] == sv[p]);
            } else {
                assert(fv[p + 1] == sv[p]);
            }
        }
        assert forall|p1: int, p2: int| 0 <= p1 < p2 < fv.len() implies (
        #[trigger] fv[p1]).idx != (#[trigger] fv[p2]).idx by {
            if p1 == pos as int {
                assert(fv[p2] == sv[p2 - 1]);
            } else if p2 == pos as int {
                assert(fv[p1] == sv[p1]);
            } else if p1 < pos && p2 < pos {
                assert(fv[p1] == sv[p1] && fv[p2] == sv[p2]);
            } else if p1 < pos && p2 > pos {
                assert(fv[p1] == sv[p1] && fv[p2] == sv[p2 - 1]);
            } else {
                assert(fv[p1] == sv[p1 - 1] && fv[p2] == sv[p2 - 1]);
            }
        }
    }
}

/// `a` sorts strictly before `b`.
fn cand_less(a: &Candidate, b: &Candidate) -> (r: bool)
    ensures
        r == s_cand_less(*a, *b),
{
    a.score > b.score || (a.score == b.score && (a.label_len < b.label_len || (a.label_len
        == b.label_len && a.idx < b.idx)))
}

} // verus!
