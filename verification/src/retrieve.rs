//! Assembly of the retrieved-context block: one line per search hit that
//! carries chunk text, ranked in the provider's order, each line naming the
//! hit's relevance to two decimals and its provenance, joined by blank
//! lines.

use vstd::prelude::*;

use crate::store::{HitView, SearchHit, hit_views};
use crate::text::{dec_digits, digit_char, digit_str, u64_to_string};

verus! {

/// The two-digit rendering of a fraction of hundredths (`7` becomes `07`).
pub open spec fn two_digits(n: nat) -> Seq<char> {
    seq![digit_char(n / 10), digit_char(n % 10)]
}

/// The decimal text of a similarity score given in hundredths, to two
/// decimal places: `90` renders as `0.90`, `-50` as `-0.50`, `234` as
/// `2.34`.
pub open spec fn score_text(centi: int) -> Seq<char> {
    if centi < 0 {
        seq!['-'] + score_mag_text((-centi) as nat)
    } else {
        score_mag_text(centi as nat)
    }
}

/// The unsigned part of a score rendering.
pub open spec fn score_mag_text(mag: nat) -> Seq<char> {
    dec_digits(mag / 100) + seq!['.'] + two_digits(mag % 100)
}

/// Render a score held in hundredths to two decimal places.
pub fn format_score(centi: i32) -> (r: String)
    ensures
        r@ == score_text(centi as int),
{
    let mag: u64 = if centi >= 0 {
        centi as u64
    } else {
        (-(centi as i64)) as u64
    };
    let mut r = String::new();
    if centi < 0 {
        r.append("-");
    }
    let whole = u64_to_string(mag / 100);
    r.append(whole.as_str());
    r.append(".");
    r.append(digit_str((mag % 100) / 10));
    r.append(digit_str(mag % 10));
    proof {
        reveal_strlit("-");
        reveal_strlit(".");
        assert("-"@ =~= seq!['-']);
        assert("."@ =~= seq!['.']);
        assert((mag % 100) % 10 == mag % 10);
        assert(r@ =~= score_text(centi as int));
    }
    r
}

/// The provenance suffix of a context line: the payload's source when it has
/// one, `unknown source` otherwise.
pub open spec fn source_suffix(source: Option<Seq<char>>) -> Seq<char> {
    match source {
        Some(s) => " (from "@ + s + ")"@,
        None => " (from unknown source)"@,
    }
}

/// The model suffix of a context line: named when the payload carries a
/// model name, empty otherwise.
pub open spec fn model_suffix(model: Option<Seq<char>>) -> Seq<char> {
    match model {
        Some(m) => " [model: "@ + m + "]"@,
        None => Seq::empty(),
    }
}

/// The context line for the hit `h` at 1-based rank `rank`. Meaningful only
/// for hits whose payload carries chunk text.
pub open spec fn hit_line(rank: nat, h: HitView) -> Seq<char> {
    "Context "@ + dec_digits(rank) + " (Relevance: "@ + score_text(h.score_centi) + ")"@
        + source_suffix(h.source) + model_suffix(h.model_name) + ": "@ + h.chunk_text->0
}

/// The context lines of `hits` from position `i` on: one line per hit whose
/// payload carries chunk text, ranked by its position among all hits.
pub open spec fn context_lines(hits: Seq<HitView>, i: int) -> Seq<Seq<char>>
    decreases hits.len() - i,
{
    if i < 0 || i >= hits.len() {
        Seq::empty()
    } else if hits[i].chunk_text is Some {
        seq![hit_line((i + 1) as nat, hits[i])] + context_lines(hits, i + 1)
    } else {
        context_lines(hits, i + 1)
    }
}

/// Context lines joined by one blank line.
pub open spec fn join_blank_line(lines: Seq<Seq<char>>) -> Seq<char>
    decreases lines.len(),
{
    if lines.len() == 0 {
        Seq::empty()
    } else if lines.len() == 1 {
        lines[0]
    } else {
        lines[0] + "\n\n"@ + join_blank_line(lines.drop_first())
    }
}

/// The whole context block for `hits`.
pub open spec fn context_text(hits: Seq<HitView>) -> Seq<char> {
    join_blank_line(context_lines(hits, 0))
}

/// Appending one line extends the join by a blank line and that line.
proof fn lemma_join_blank_line_push(lines: Seq<Seq<char>>, x: Seq<char>)
    ensures
        join_blank_line(lines.push(x)) == if lines.len() == 0 {
            x
        } else {
            join_blank_line(lines) + "\n\n"@ + x
        },
    decreases lines.len(),
{
    let p = lines.push(x);
    if lines.len() == 0 {
        assert(join_blank_line(p) == p[0]);
        assert(p[0] == x);
    } else {
        lemma_join_blank_line_push(lines.drop_first(), x);
        assert(p.drop_first() =~= lines.drop_first().push(x));
        if lines.len() == 1 {
            assert(join_blank_line(p) == p[0] + "\n\n"@ + join_blank_line(p.drop_first()));
            assert(join_blank_line(p) =~= join_blank_line(lines) + "\n\n"@ + x);
        } else {
            assert(join_blank_line(p) =~= join_blank_line(lines) + "\n\n"@ + x);
        }
    }
}

/// Render the context line for `hit` at 1-based rank `rank`.
fn format_hit_line(rank: u64, hit: &SearchHit) -> (r: String)
    requires
        hit@.chunk_text is Some,
    ensures
        r@ == hit_line(rank as nat, hit@),
{
    let mut r = String::new();
    r.append("Context ");
    let rank_text = u64_to_string(rank);
    r.append(rank_text.as_str());
    r.append(" (Relevance: ");
    let score = format_score(hit.score_centi);
    r.append(score.as_str());
    r.append(")");
    match &hit.source {
        Some(s) => {
            r.append(" (from ");
            r.append(s.as_str());
            r.append(")");
        },
        None => {
            r.append(" (from unknown source)");
        },
    }
    match &hit.model_name {
        Some(m) => {
            r.append(" [model: ");
            r.append(m.as_str());
            r.append("]");
        },
        None => {},
    }
    r.append(": ");
    match &hit.chunk_text {
        Some(t) => {
            r.append(t.as_str());
        },
        None => {},
    }
    proof {
        assert(r@ =~= hit_line(rank as nat, hit@));
    }
    r
}

/// The views of a vector of line strings.
pub open spec fn line_views(v: Seq<String>) -> Seq<Seq<char>> {
    v.map_values(|s: String| s@)
}

/// Collect the context lines of `hits`, in rank order.
fn collect_context_lines(hits: &Vec<SearchHit>) -> (r: Vec<String>)
    ensures
        line_views(r@) == context_lines(hit_views(hits@), 0),
{
    let ghost views = hit_views(hits@);
    let mut out: Vec<String> = Vec::new();
    let mut i: usize = 0;
    proof {
        assert(line_views(out@) =~= Seq::<Seq<char>>::empty());
    }
    while i < hits.len()
        invariant
            i <= hits@.len(),
            views == hit_views(hits@),
            context_lines(views, 0) =~= line_views(out@) + context_lines(views, i as int),
        decreases hits@.len() - i,
    {
        let hit = &hits[i];
        proof {
            assert(hit@ == views[i as int]);
        }
        if hit.chunk_text.is_some() {
            let line = format_hit_line((i as u64) + 1, hit);
            proof {
                assert(line_views(out@.push(line)) =~= line_views(out@).push(line@));
            }
            out.push(line);
        }
        i += 1;
    }
    proof {
        assert(line_views(out@) =~= context_lines(views, 0));
    }
    out
}

/// Join lines with blank-line separators.
fn join_lines(lines: &Vec<String>) -> (r: String)
    ensures
        r@ == join_blank_line(line_views(lines@)),
{
    if lines.len() == 0 {
        let r = String::new();
        return r;
    }
    let mut r = lines[0].clone();
    let mut j: usize = 1;
    proof {
        assert(line_views(lines@).subrange(0, 1) =~= seq![lines@[0]@]);
    }
    while j < lines.len()
        invariant
            1 <= j <= lines@.len(),
            r@ == join_blank_line(line_views(lines@).subrange(0, j as int)),
        decreases lines@.len() - j,
    {
        let ghost sofar = line_views(lines@).subrange(0, j as int);
        proof {
            lemma_join_blank_line_push(sofar, lines@[j as int]@);
            assert(sofar.push(lines@[j as int]@) =~= line_views(lines@).subrange(0, j + 1));
        }
        r.append("\n\n");
        r.append(lines[j].as_str());
        proof {
            assert(r@ =~= join_blank_line(line_views(lines@).subrange(0, j + 1)));
        }
        j += 1;
    }
    proof {
        assert(line_views(lines@).subrange(0, lines@.len() as int) =~= line_views(lines@));
    }
    r
}

/// Assemble the context block from the hits a search returned. No hits means
/// nothing was found; any hits at all mean a context string comes back, even
/// when every payload lacks chunk text (the block is then empty).
pub fn retrieve_context_from_hits(hits: &Vec<SearchHit>) -> (r: (bool, Option<String>))
    ensures
        r.0 == (hits@.len() > 0),
        hits@.len() == 0 ==> r.1 is None,
        hits@.len() > 0 ==> r.1 is Some && r.1->0@ == context_text(hit_views(hits@)),
{
    if hits.len() == 0 {
        return (false, None);
    }
    let lines = collect_context_lines(hits);
    let context = join_lines(&lines);
    (true, Some(context))
}

/// Each hit whose payload carries chunk text contributes a line, counted
/// from position `i` on.
pub open spec fn text_hit_count(hits: Seq<HitView>, i: int) -> nat
    decreases hits.len() - i,
{
    if i < 0 || i >= hits.len() {
        0
    } else if hits[i].chunk_text is Some {
        1 + text_hit_count(hits, i + 1)
    } else {
        text_hit_count(hits, i + 1)
    }
}

/// The context block holds exactly one line per hit whose payload carries
/// chunk text: no hit is dropped for any other reason, and no hit
/// contributes twice.
pub proof fn lemma_one_line_per_text_hit(hits: Seq<HitView>, i: int)
    ensures
        context_lines(hits, i).len() == text_hit_count(hits, i),
    decreases hits.len() - i,
{
    if 0 <= i < hits.len() {
        lemma_one_line_per_text_hit(hits, i + 1);
    }
}

} // verus!
