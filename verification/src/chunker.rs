//! Splitting raw text into sentences and grouping consecutive sentences into
//! bounded chunks with positional metadata.
//!
//! Sentence boundaries are the terminal punctuation marks `.`, `?` and `!`;
//! a line break ends any pending fragment, and fragments that trim to nothing
//! (in particular blank lines) are dropped.

use vstd::prelude::*;

use crate::text::{is_space, is_space_char, trim, lemma_trim_all_space, lemma_trim_subrange};

verus! {

/// Whether `c` is terminal punctuation that closes a sentence.
pub open spec fn is_terminal(c: char) -> bool {
    c == '.' || c == '?' || c == '!'
}

/// Runtime test for [`is_terminal`].
pub fn is_terminal_char(c: char) -> (r: bool)
    ensures
        r == is_terminal(c),
{
    c == '.' || c == '?' || c == '!'
}

/// The sentence that a pending fragment contributes: its trimmed text when
/// anything non-blank remains, nothing otherwise.
pub open spec fn flush(cur: Seq<char>) -> Seq<Seq<char>> {
    if trim(cur).len() > 0 {
        seq![trim(cur)]
    } else {
        Seq::empty()
    }
}

/// The sentences of `text` from position `i` onward, with `cur` the fragment
/// accumulated before `i`. A terminal mark closes the fragment including the
/// mark itself; a line break closes it without; the end of the text flushes
/// whatever remains.
pub open spec fn sentences_from(text: Seq<char>, i: int, cur: Seq<char>) -> Seq<Seq<char>>
    decreases text.len() - i,
{
    if i >= text.len() {
        flush(cur)
    } else if text[i] == '\n' {
        flush(cur) + sentences_from(text, i + 1, Seq::empty())
    } else if is_terminal(text[i]) {
        seq![trim(cur.push(text[i]))] + sentences_from(text, i + 1, Seq::empty())
    } else {
        sentences_from(text, i + 1, cur.push(text[i]))
    }
}

/// The sentences of `text`.
pub open spec fn sentences(text: Seq<char>) -> Seq<Seq<char>> {
    sentences_from(text, 0, Seq::empty())
}

/// A sequence containing any non-whitespace character trims to something
/// non-empty.
pub proof fn lemma_trim_nonempty(s: Seq<char>, w: int)
    requires
        0 <= w < s.len(),
        !is_space(s[w]),
    ensures
        trim(s).len() > 0,
    decreases s.len(),
{
    if is_space(s[0]) {
        lemma_trim_nonempty(s.drop_first(), w - 1);
    } else if is_space(s.last()) {
        lemma_trim_nonempty(s.drop_last(), if w == s.len() - 1 { 0 } else { w });
    }
}

/// The trimmed text of `text[lo..hi]`, or nothing when that range is blank.
fn trimmed_range(text: &str, lo: usize, hi: usize) -> (r: Option<String>)
    requires
        lo <= hi <= text@.len(),
    ensures
        match r {
            Some(t) => t@ == trim(text@.subrange(lo as int, hi as int)) && t@.len() > 0,
            None => trim(text@.subrange(lo as int, hi as int)).len() == 0,
        },
{
    let ghost sub = text@.subrange(lo as int, hi as int);
    let mut a = lo;
    while a < hi && is_space_char(text.get_char(a))
        invariant
            lo <= a <= hi <= text@.len(),
            forall|j: int| lo <= j < a ==> is_space(#[trigger] text@[j]),
        decreases hi - a,
    {
        a += 1;
    }
    if a == hi {
        proof {
            assert(forall|j: int| 0 <= j < sub.len() ==> is_space(#[trigger] sub[j]));
            lemma_trim_all_space(sub);
        }
        return None;
    }
    let mut b = hi;
    while is_space_char(text.get_char(b - 1))
        invariant
            a < b <= hi <= text@.len(),
            !is_space(text@[a as int]),
            forall|j: int| b <= j < hi ==> is_space(#[trigger] text@[j]),
        decreases b,
    {
        b -= 1;
    }
    proof {
        lemma_trim_subrange(sub, a - lo, b - lo);
        assert(sub.subrange(a - lo, b - lo) =~= text@.subrange(a as int, b as int));
    }
    let piece = text.substring_char(a, b);
    Some(piece.to_owned())
}

/// The views of a vector of strings.
pub open spec fn string_views(v: Seq<String>) -> Seq<Seq<char>> {
    v.map_values(|s: String| s@)
}

/// Split `text` into its sentences.
pub fn split_sentences(text: &str) -> (r: Vec<String>)
    ensures
        string_views(r@) == sentences(text@),
{
    let n = text.unicode_len();
    let mut out: Vec<String> = Vec::new();
    let mut start: usize = 0;
    let mut i: usize = 0;
    proof {
        assert(text@.subrange(0, 0) =~= Seq::<char>::empty());
        assert(string_views(Seq::<String>::empty()) =~= Seq::<Seq<char>>::empty());
    }
    while i < n
        invariant
            start <= i <= n,
            n == text@.len(),
            sentences(text@) =~= string_views(out@) + sentences_from(
                text@,
                i as int,
                text@.subrange(start as int, i as int),
            ),
        decreases n - i,
    {
        let ghost cur = text@.subrange(start as int, i as int);
        let c = text.get_char(i);
        if c == '\n' {
            match trimmed_range(text, start, i) {
                Some(t) => {
                    proof {
                        assert(string_views(out@.push(t)) =~= string_views(out@).push(t@));
                    }
                    out.push(t);
                },
                None => {},
            }
            start = i + 1;
            proof {
                assert(text@.subrange(start as int, i + 1) =~= Seq::<char>::empty());
            }
        } else if is_terminal_char(c) {
            proof {
                assert(cur.push(text@[i as int]) =~= text@.subrange(start as int, i + 1));
                lemma_trim_nonempty(text@.subrange(start as int, i + 1), i - start);
            }
            match trimmed_range(text, start, i + 1) {
                Some(t) => {
                    proof {
                        assert(string_views(out@.push(t)) =~= string_views(out@).push(t@));
                    }
                    out.push(t);
                },
                None => {
                    // A terminal mark is never whitespace, so the fragment
                    // cannot trim away.
                    proof {
                        assert(false);
                    }
                },
            }
            start = i + 1;
            proof {
                assert(text@.subrange(start as int, i + 1) =~= Seq::<char>::empty());
            }
        } else {
            proof {
                assert(cur.push(text@[i as int]) =~= text@.subrange(start as int, i + 1));
            }
        }
        i += 1;
    }
    match trimmed_range(text, start, n) {
        Some(t) => {
            proof {
                assert(string_views(out@.push(t)) =~= string_views(out@).push(t@));
            }
            out.push(t);
        },
        None => {},
    }
    proof {
        assert(string_views(out@) =~= sentences(text@));
    }
    out
}

/// `items` cut into consecutive runs of `m` elements, the last run holding
/// the remainder. Empty input gives no runs; `m == 0` gives none either (the
/// public entry points never pass it).
pub open spec fn grouped<A>(items: Seq<A>, m: nat) -> Seq<Seq<A>>
    decreases items.len(),
{
    if m == 0 || items.len() == 0 {
        Seq::empty()
    } else if items.len() <= m {
        seq![items]
    } else {
        seq![items.take(m as int)] + grouped(items.skip(m as int), m)
    }
}

/// Grouping partitions its input: the runs concatenate back to the input
/// sequence, so the run lengths sum to the input length.
pub proof fn lemma_grouped_flatten<A>(items: Seq<A>, m: nat)
    requires
        m >= 1,
    ensures
        grouped(items, m).flatten() == items,
    decreases items.len(),
{
    if items.len() == 0 {
        assert(grouped(items, m).flatten() =~= items);
    } else if items.len() <= m {
        let g = seq![items];
        assert(g.drop_first() =~= Seq::<Seq<A>>::empty());
        assert(Seq::<Seq<A>>::empty().flatten() == Seq::<A>::empty());
        assert(g.flatten() == g.first() + g.drop_first().flatten());
        assert(grouped(items, m).flatten() =~= items);
    } else {
        lemma_grouped_flatten(items.skip(m as int), m);
        let g = grouped(items, m);
        assert(g.drop_first() =~= grouped(items.skip(m as int), m));
        assert(g.flatten() =~= items.take(m as int) + items.skip(m as int));
        assert(g.flatten() =~= items);
    }
}

/// Every run that grouping produces is non-empty and holds at most `m`
/// elements.
pub proof fn lemma_grouped_sizes<A>(items: Seq<A>, m: nat)
    requires
        m >= 1,
    ensures
        forall|j: int|
            0 <= j < grouped(items, m).len() ==> 1 <= (#[trigger] grouped(items, m)[j]).len()
                <= m,
    decreases items.len(),
{
    if items.len() == 0 {
    } else if items.len() <= m {
        assert(grouped(items, m)[0] == items);
    } else {
        lemma_grouped_sizes(items.skip(m as int), m);
        let g = grouped(items, m);
        assert forall|j: int| 0 <= j < g.len() implies 1 <= (#[trigger] g[j]).len() <= m by {
            if j == 0 {
                assert(g[0] == items.take(m as int));
            } else {
                assert(g[j] == grouped(items.skip(m as int), m)[j - 1]);
            }
        }
    }
}

/// The sentences of one chunk joined by single spaces.
pub open spec fn join_space(parts: Seq<Seq<char>>) -> Seq<char>
    decreases parts.len(),
{
    if parts.len() == 0 {
        Seq::empty()
    } else if parts.len() == 1 {
        parts[0]
    } else {
        parts[0] + seq![' '] + join_space(parts.drop_first())
    }
}

/// Appending one part extends the join by a space and that part.
proof fn lemma_join_space_push(parts: Seq<Seq<char>>, x: Seq<char>)
    ensures
        join_space(parts.push(x)) == if parts.len() == 0 {
            x
        } else {
            join_space(parts) + seq![' '] + x
        },
    decreases parts.len(),
{
    let p = parts.push(x);
    if parts.len() == 0 {
        assert(join_space(p) == p[0]);
        assert(p[0] == x);
    } else {
        lemma_join_space_push(parts.drop_first(), x);
        assert(p.drop_first() =~= parts.drop_first().push(x));
        if parts.len() == 1 {
            assert(join_space(p) == p[0] + seq![' '] + join_space(p.drop_first()));
            assert(join_space(p) =~= join_space(parts) + seq![' '] + x);
        } else {
            assert(join_space(p) =~= join_space(parts) + seq![' '] + x);
        }
    }
}

/// Join the sentences `sents[lo..hi]` with single spaces.
fn join_range(sents: &Vec<String>, lo: usize, hi: usize) -> (r: String)
    requires
        lo < hi <= sents@.len(),
    ensures
        r@ == join_space(string_views(sents@).subrange(lo as int, hi as int)),
{
    proof {
        reveal_strlit(" ");
    }
    let mut r = sents[lo].clone();
    let mut j = lo + 1;
    proof {
        assert(string_views(sents@).subrange(lo as int, lo + 1) =~= seq![sents@[lo as int]@]);
    }
    while j < hi
        invariant
            lo < j <= hi <= sents@.len(),
            r@ == join_space(string_views(sents@).subrange(lo as int, j as int)),
        decreases hi - j,
    {
        let ghost sofar = string_views(sents@).subrange(lo as int, j as int);
        proof {
            lemma_join_space_push(sofar, sents@[j as int]@);
            assert(sofar.push(sents@[j as int]@) =~= string_views(sents@).subrange(
                lo as int,
                j + 1,
            ));
            reveal_strlit(" ");
            assert(" "@ =~= seq![' ']);
        }
        r.append(" ");
        r.append(sents[j].as_str());
        proof {
            assert(r@ =~= join_space(string_views(sents@).subrange(lo as int, j + 1)));
        }
        j += 1;
    }
    r
}

/// A chunk bound of `0` behaves as `1`: grouping emits a chunk as soon as
/// the bound is reached, so at least one sentence always lands in each
/// chunk.
pub open spec fn clamp_min_one(m: nat) -> nat {
    if m == 0 {
        1
    } else {
        m
    }
}

/// The chunks of `text`: its sentences grouped `m`-at-a-time (the final chunk
/// holding the remainder), each chunk's sentences joined by single spaces.
pub open spec fn spec_chunks(text: Seq<char>, m: nat) -> Seq<Seq<char>> {
    grouped(sentences(text), clamp_min_one(m)).map_values(|g: Seq<Seq<char>>| join_space(g))
}

/// Split `text` into sentences and group them into chunks of at most
/// `max_sents` sentences each; only the final chunk may hold fewer.
pub fn chunk_by_sentences(text: &str, max_sents: usize) -> (r: Vec<String>)
    ensures
        string_views(r@) == spec_chunks(text@, max_sents as nat),
{
    let sents = split_sentences(text);
    let m: usize = if max_sents == 0 {
        1
    } else {
        max_sents
    };
    let ghost sv = string_views(sents@);
    let ghost joined = grouped(sv, m as nat).map_values(|g: Seq<Seq<char>>| join_space(g));
    let mut out: Vec<String> = Vec::new();
    let mut i: usize = 0;
    proof {
        assert(sv.skip(0) =~= sv);
    }
    while i < sents.len()
        invariant
            i <= sents@.len(),
            m >= 1,
            sv == string_views(sents@),
            joined == grouped(sv, m as nat).map_values(|g: Seq<Seq<char>>| join_space(g)),
            joined =~= string_views(out@) + grouped(sv.skip(i as int), m as nat).map_values(
                |g: Seq<Seq<char>>| join_space(g),
            ),
        decreases sents@.len() - i,
    {
        let remaining = sents.len() - i;
        let size = if remaining <= m {
            remaining
        } else {
            m
        };
        let gend = i + size;
        let ghost rest = sv.skip(i as int);
        proof {
            if remaining <= m {
                assert(grouped(rest, m as nat) == seq![rest]);
                assert(rest =~= sv.subrange(i as int, gend as int));
            } else {
                assert(rest.take(m as int) =~= sv.subrange(i as int, gend as int));
                assert(rest.skip(m as int) =~= sv.skip(gend as int));
            }
        }
        let piece = join_range(&sents, i, gend);
        proof {
            assert(string_views(out@.push(piece)) =~= string_views(out@).push(piece@));
            assert(grouped(rest, m as nat).map_values(|g: Seq<Seq<char>>| join_space(g)) =~= seq![
                piece@,
            ] + grouped(sv.skip(gend as int), m as nat).map_values(
                |g: Seq<Seq<char>>| join_space(g),
            ));
        }
        out.push(piece);
        i = gend;
    }
    proof {
        assert(sv.skip(i as int) =~= Seq::<Seq<char>>::empty());
        assert(string_views(out@) =~= joined);
    }
    out
}

/// One retrievable unit: a group of sentences with its provenance and its
/// position among the chunks cut from the same document.
pub struct Chunk {
    pub text: String,
    pub source: String,
    pub index: usize,
    pub total: usize,
}

/// Chunk `text` and attach metadata: the chunk's position (0-based, in chunk
/// order), the count of chunks produced by this call, and the caller-supplied
/// source name.
pub fn chunk_text(text: &str, max_sents: usize, source_name: &str) -> (r: Vec<Chunk>)
    ensures
        r@.len() == spec_chunks(text@, max_sents as nat).len(),
        forall|i: int|
            0 <= i < r@.len() ==> {
                &&& (#[trigger] r@[i]).text@ == spec_chunks(text@, max_sents as nat)[i]
                &&& r@[i].source@ == source_name@
                &&& r@[i].index == i
                &&& r@[i].total == r@.len()
            },
{
    let chunks = chunk_by_sentences(text, max_sents);
    let total = chunks.len();
    let mut r: Vec<Chunk> = Vec::new();
    let mut i: usize = 0;
    while i < chunks.len()
        invariant
            i <= chunks@.len(),
            total == chunks@.len(),
            string_views(chunks@) == spec_chunks(text@, max_sents as nat),
            r@.len() == i,
            forall|k: int|
                0 <= k < i ==> {
                    &&& (#[trigger] r@[k]).text@ == string_views(chunks@)[k]
                    &&& r@[k].source@ == source_name@
                    &&& r@[k].index == k
                    &&& r@[k].total == total
                },
        decreases chunks@.len() - i,
    {
        r.push(
            Chunk {
                text: chunks[i].clone(),
                source: source_name.to_owned(),
                index: i,
                total,
            },
        );
        i += 1;
    }
    r
}

/// The chunk texts alone, in order, as the embedding request sends them.
pub fn chunk_texts(chunks: &Vec<Chunk>) -> (r: Vec<String>)
    ensures
        r@.len() == chunks@.len(),
        forall|i: int| 0 <= i < r@.len() ==> (#[trigger] r@[i])@ == chunks@[i].text@,
{
    let mut r: Vec<String> = Vec::new();
    let mut i: usize = 0;
    while i < chunks.len()
        invariant
            i <= chunks@.len(),
            r@.len() == i,
            forall|k: int| 0 <= k < i ==> (#[trigger] r@[k])@ == chunks@[k].text@,
        decreases chunks@.len() - i,
    {
        r.push(chunks[i].text.clone());
        i += 1;
    }
    r
}

/// Chunking partitions the sentence sequence: the sentence groups behind the
/// chunks of `text` concatenate back to exactly its sentences (so the chunks'
/// sentence counts sum to the sentence count), there is one chunk per group,
/// and every group holds between one and `max_sents` sentences (a bound of
/// `0` acting as `1`).
pub proof fn lemma_chunks_partition_sentences(text: Seq<char>, max_sents: nat)
    ensures
        grouped(sentences(text), clamp_min_one(max_sents)).flatten() == sentences(text),
        spec_chunks(text, max_sents).len() == grouped(
            sentences(text),
            clamp_min_one(max_sents),
        ).len(),
        forall|j: int|
            0 <= j < grouped(sentences(text), clamp_min_one(max_sents)).len() ==> 1 <= (
            #[trigger] grouped(sentences(text), clamp_min_one(max_sents))[j]).len()
                <= clamp_min_one(max_sents),
{
    lemma_grouped_flatten(sentences(text), clamp_min_one(max_sents));
    lemma_grouped_sizes(sentences(text), clamp_min_one(max_sents));
}

} // verus!
