//! Splitting knowledge items into chunks for embedding: the title alone, then
//! paragraphs (long ones cut into runs of 600 characters) gathered up to
//! about 600 bytes per chunk.
use vstd::prelude::*;
use vstd::string::*;
use crate::text::{blank, byte_len, byte_len_capped, concat, is_blank, owned, split_by, split_pat};
use crate::models::{KbItem, KbItemView};

verus! {

broadcast use vstd::string::group_string_axioms;

/// Chunks made so far, the paragraphs gathered for the next one, its id.
pub struct ChunkState {
    pub chunks: Seq<(u32, Seq<char>)>,
    pub buffer: Seq<char>,
    pub next_id: nat,
}

/// Gathering paragraphs in order: when the next paragraph would take a
/// non-empty buffer past 600 bytes, the buffer becomes a chunk first;
/// paragraphs in a buffer are joined by a blank line.
pub open spec fn gather(start: ChunkState, paras: Seq<Seq<char>>) -> ChunkState
    decreases paras.len(),
{
    if paras.len() == 0 {
        start
    } else {
        let st = gather(start, paras.drop_last());
        let para = paras.last();
        let cut = byte_len(st.buffer) + byte_len(para) > 600 && st.buffer.len() > 0;
        let chunks = if cut { st.chunks.push((st.next_id as u32, st.buffer)) } else { st.chunks };
        let id = if cut { st.next_id + 1 } else { st.next_id };
        let buffer = if cut { Seq::empty() } else { st.buffer };
        let joined = if buffer.len() > 0 { buffer + "\n\n"@ } else { buffer };
        ChunkState { chunks, buffer: joined + para, next_id: id }
    }
}

/// `s` from `i` on, cut into runs of 600 characters (the last one shorter,
/// and a single empty run for an empty rest).
pub open spec fn runs_from(s: Seq<char>, i: int) -> Seq<Seq<char>>
    decreases s.len() - i,
{
    if s.len() - i <= 600 {
        seq![s.subrange(i, s.len() as int)]
    } else {
        seq![s.subrange(i, i + 600)] + runs_from(s, i + 600)
    }
}

/// The paragraphs with every one longer than 600 characters cut into runs.
pub open spec fn pieces_of(ps: Seq<Seq<char>>) -> Seq<Seq<char>>
    decreases ps.len(),
{
    if ps.len() == 0 {
        Seq::empty()
    } else {
        pieces_of(ps.drop_last()) + runs_from(ps.last(), 0)
    }
}

/// The chunks of an item: (0, title) when the title is not blank, then the
/// body's paragraphs (long ones cut into runs of 600 characters) gathered,
/// the last buffer kept unless blank.
pub open spec fn chunks_spec(k: KbItemView) -> Seq<(u32, Seq<char>)> {
    let head: Seq<(u32, Seq<char>)> = if blank(k.title) { Seq::empty() } else { seq![(0u32, k.title)] };
    let st = gather(ChunkState { chunks: head, buffer: Seq::empty(), next_id: head.len() }, pieces_of(split_pat(k.body_md, "\n\n"@)));
    if blank(st.buffer) { st.chunks } else { st.chunks.push((st.next_id as u32, st.buffer)) }
}

proof fn lemma_gather_bound(start: ChunkState, paras: Seq<Seq<char>>)
    ensures
        gather(start, paras).next_id <= start.next_id + paras.len(),
    decreases paras.len(),
{
    if paras.len() > 0 {
        lemma_gather_bound(start, paras.drop_last());
    }
}

proof fn lemma_split_len(s: Seq<char>, p: Seq<char>)
    requires
        p.len() > 0,
    ensures
        split_pat(s, p).len() <= s.len() + 1,
    decreases s.len(),
{
    match crate::text::find_from(s, p, 0) {
        None => {},
        Some(j) => {
            if 0 <= j && j + p.len() <= s.len() {
                lemma_split_len(s.skip(j + p.len()), p);
            }
        },
    }
}

/// Room the paragraphs take: each one's length plus one.
pub open spec fn weight(ps: Seq<Seq<char>>) -> nat
    decreases ps.len(),
{
    if ps.len() == 0 { 0 } else { ps[0].len() + 1 + weight(ps.drop_first()) }
}

proof fn lemma_split_weight(s: Seq<char>, p: Seq<char>)
    requires
        p.len() > 0,
    ensures
        weight(split_pat(s, p)) <= 2 * s.len() + 1,
    decreases s.len(),
{
    match crate::text::find_from(s, p, 0) {
        None => {
            assert(split_pat(s, p) == seq![s]);
            assert(seq![s].drop_first() =~= Seq::<Seq<char>>::empty());
            assert(weight(Seq::<Seq<char>>::empty()) == 0);
            assert(weight(seq![s]) == s.len() + 1);
        },
        Some(j) => {
            if 0 <= j && j + p.len() <= s.len() {
                let rest = split_pat(s.skip(j + p.len()), p);
                lemma_split_weight(s.skip(j + p.len()), p);
                assert((seq![s.take(j)] + rest).drop_first() =~= rest);
                assert((seq![s.take(j)] + rest)[0] == s.take(j));
                assert(weight(seq![s.take(j)] + rest) == j + 1 + weight(rest));
            } else {
                assert(seq![s].drop_first() =~= Seq::<Seq<char>>::empty());
                assert(weight(Seq::<Seq<char>>::empty()) == 0);
                assert(weight(seq![s]) == s.len() + 1);
            }
        },
    }
}

proof fn lemma_runs_bound(s: Seq<char>, i: int)
    requires
        0 <= i <= s.len(),
    ensures
        runs_from(s, i).len() <= s.len() - i + 1,
        forall|k: int| 0 <= k < runs_from(s, i).len() ==> (#[trigger] runs_from(s, i)[k]).len() <= 600,
    decreases s.len() - i,
{
    if s.len() - i > 600 {
        lemma_runs_bound(s, i + 600);
        let r = runs_from(s, i + 600);
        assert forall|k: int| 0 <= k < runs_from(s, i).len() implies (#[trigger] runs_from(s, i)[k]).len() <= 600 by {
            if k > 0 {
                assert(runs_from(s, i)[k] == r[k - 1]);
            }
        }
    }
}

proof fn lemma_pieces_short(ps: Seq<Seq<char>>)
    ensures
        forall|k: int| 0 <= k < pieces_of(ps).len() ==> (#[trigger] pieces_of(ps)[k]).len() <= 600,
    decreases ps.len(),
{
    if ps.len() > 0 {
        lemma_pieces_short(ps.drop_last());
        lemma_runs_bound(ps.last(), 0);
        let a = pieces_of(ps.drop_last());
        let b = runs_from(ps.last(), 0);
        assert forall|k: int| 0 <= k < pieces_of(ps).len() implies (#[trigger] pieces_of(ps)[k]).len() <= 600 by {
            if k < a.len() {
                assert(pieces_of(ps)[k] == a[k]);
            } else {
                assert(pieces_of(ps)[k] == b[k - a.len()]);
            }
        }
    }
}

pub open spec fn chunks_view(v: Seq<(u32, String)>) -> Seq<(u32, Seq<char>)> {
    v.map_values(|c: (u32, String)| (c.0, c.1@))
}

/// Chunks of a knowledge item for embedding.
///
/// Chunk numbers are `u32`; the body's length (under two billion
/// characters, some gigabytes of text) keeps every number within that type
/// whatever the paragraphs look like.
pub fn chunk_item(item: &KbItem) -> (chunks: Vec<(u32, String)>)
    requires
        item.body_md@.len() < 2000000000,
    ensures
        chunks_view(chunks@) == chunks_spec(item@),
{
    let mut chunks: Vec<(u32, String)> = Vec::new();
    if !is_blank(item.title.as_str()) {
        chunks.push((0, item.title.clone()));
    }
    let ghost head = chunks_view(chunks@);
    assert(head =~= (if blank(item@.title) { Seq::<(u32, Seq<char>)>::empty() } else { seq![(0u32, item@.title)] }));
    proof {
        reveal_strlit("\n\n");
    }
    let paras = split_by(item.body_md.as_str(), "\n\n");
    let ghost ws = paras@.map_values(|x: String| x@);
    proof {
        lemma_split_weight(item.body_md@, "\n\n"@);
    }
    let mut pieces: Vec<String> = Vec::new();
    let mut j: usize = 0;
    assert(ws.skip(0) =~= ws);
    assert(ws.take(0) =~= Seq::<Seq<char>>::empty());
    while j < paras.len()
        invariant
            j <= paras@.len(),
            ws == paras@.map_values(|x: String| x@),
            weight(ws) <= 4000000001,
            pieces@.map_values(|x: String| x@) == pieces_of(ws.take(j as int)),
            pieces@.len() + weight(ws.skip(j as int)) <= weight(ws),
        decreases paras@.len() - j,
    {
        proof {
            assert(ws.skip(j as int).drop_first() =~= ws.skip(j + 1));
            assert(ws.skip(j as int)[0] == ws[j as int]);
            assert(ws.take(j + 1).drop_last() =~= ws.take(j as int));
            assert(ws.take(j + 1).last() == ws[j as int]);
        }
        let cs = crate::text::chars_of(paras[j].as_str());
        let n = cs.len();
        let ghost before = pieces_of(ws.take(j as int));
        let mut from: usize = 0;
        let mut done = false;
        while !done
            invariant
                from <= n,
                n == cs@.len(),
                cs@ == ws[j as int],
                pieces@.len() + weight(ws.skip(j + 1)) <= weight(ws),
                !done ==> pieces@.len() + (n - from) + 1 + weight(ws.skip(j + 1)) <= weight(ws),
                !done ==> pieces@.map_values(|x: String| x@) + runs_from(cs@, from as int) == before + runs_from(cs@, 0),
                done ==> pieces@.map_values(|x: String| x@) == before + runs_from(cs@, 0),
            decreases n - from + (if done { 0int } else { 1int }),
        {
            let ghost pv = pieces@.map_values(|x: String| x@);
            if n - from <= 600 {
                pieces.push(crate::text::string_of_range(&cs, from, n));
                assert(pieces@.map_values(|x: String| x@) =~= pv + runs_from(cs@, from as int));
                done = true;
            } else {
                pieces.push(crate::text::string_of_range(&cs, from, from + 600));
                assert(pieces@.map_values(|x: String| x@) + runs_from(cs@, from + 600) =~= pv + runs_from(cs@, from as int));
                from = from + 600;
            }
        }
        j = j + 1;
    }
    assert(ws.take(ws.len() as int) =~= ws);
    let ghost ps = pieces@.map_values(|x: String| x@);
    let ghost start = ChunkState { chunks: head, buffer: Seq::empty(), next_id: head.len() };
    proof {
        lemma_pieces_short(ws);
    }
    let mut buffer = String::new();
    let mut chunk_id: u32 = chunks.len() as u32;
    let mut k: usize = 0;
    while k < pieces.len()
        invariant
            k <= pieces@.len(),
            ps == pieces@.map_values(|x: String| x@),
            ps.len() <= 4000000001,
            head.len() <= 1,
            start == (ChunkState { chunks: head, buffer: Seq::empty(), next_id: head.len() }),
            ({
                let st = gather(start, ps.take(k as int));
                &&& chunks_view(chunks@) == st.chunks
                &&& buffer@ == st.buffer
                &&& chunk_id as nat == st.next_id
            }),
        decreases pieces@.len() - k,
    {
        proof {
            assert(ps.take(k + 1).drop_last() =~= ps.take(k as int));
            assert(ps.take(k + 1).last() == ps[k as int]);
            lemma_gather_bound(start, ps.take(k as int));
        }
        let ghost st = gather(start, ps.take(k as int));
        let para = pieces[k].as_str();
        let blen = byte_len_capped(buffer.as_str(), 601);
        let plen = byte_len_capped(para, 601);
        if blen + plen > 600 && buffer.unicode_len() > 0 {
            let ghost before = chunks_view(chunks@);
            let mut taken = String::new();
            std::mem::swap(&mut taken, &mut buffer);
            chunks.push((chunk_id, taken));
            assert(chunks_view(chunks@) =~= before.push((chunk_id, chunks@.last().1@)));
            chunk_id = chunk_id + 1;
        }
        if buffer.unicode_len() > 0 {
            buffer = concat(buffer.as_str(), "\n\n");
        }
        buffer = concat(buffer.as_str(), para);
        proof {
            let cut = byte_len(st.buffer) + byte_len(ps[k as int]) > 600 && st.buffer.len() > 0;
            let nxt = gather(start, ps.take(k + 1));
            assert(nxt.buffer == buffer@);
            assert(nxt.next_id == chunk_id as nat);
            assert(nxt.chunks == chunks_view(chunks@));
        }
        k = k + 1;
    }
    assert(ps.take(ps.len() as int) =~= ps);
    if !is_blank(buffer.as_str()) {
        let ghost before = chunks_view(chunks@);
        chunks.push((chunk_id, buffer));
        assert(chunks_view(chunks@) =~= before.push((chunk_id, chunks@.last().1@)));
    }
    chunks
}

proof fn lemma_bytes_at_least_chars(s: Seq<char>)
    ensures
        byte_len(s) >= s.len(),
    decreases s.len(),
{
    if s.len() > 0 {
        lemma_bytes_at_least_chars(s.drop_first());
        assert(vstd::utf8::encode_scalar(s[0] as u32).len() >= 1);
    }
}

proof fn lemma_gather_short(start: ChunkState, paras: Seq<Seq<char>>)
    requires
        start.buffer.len() <= 602,
        forall|k: int| 0 <= k < paras.len() ==> (#[trigger] paras[k]).len() <= 600,
    ensures
        gather(start, paras).buffer.len() <= 602,
        gather(start, paras).chunks.len() >= start.chunks.len(),
        forall|i: int| 0 <= i < start.chunks.len() ==> #[trigger] gather(start, paras).chunks[i] == start.chunks[i],
        forall|i: int| start.chunks.len() <= i < gather(start, paras).chunks.len()
            ==> (#[trigger] gather(start, paras).chunks[i]).1.len() <= 602,
    decreases paras.len(),
{
    if paras.len() > 0 {
        let p = paras.drop_last();
        assert forall|k: int| 0 <= k < p.len() implies (#[trigger] p[k]).len() <= 600 by {
            assert(p[k] == paras[k]);
        }
        lemma_gather_short(start, p);
        let st = gather(start, p);
        let para = paras.last();
        assert(para == paras[paras.len() - 1]);
        lemma_bytes_at_least_chars(st.buffer);
        lemma_bytes_at_least_chars(para);
        reveal_strlit("\n\n");
    }
}

/// Body chunks stay short: every chunk but the title's holds at most 800
/// characters (long paragraphs are cut into runs of 600).
pub proof fn law_body_chunks_short(k: KbItemView)
    ensures
        forall|i: int| 0 <= i < chunks_spec(k).len() && (blank(k.title) || i > 0)
            ==> (#[trigger] chunks_spec(k)[i]).1.len() <= 800,
{
    let head: Seq<(u32, Seq<char>)> = if blank(k.title) { Seq::empty() } else { seq![(0u32, k.title)] };
    let start = ChunkState { chunks: head, buffer: Seq::empty(), next_id: head.len() };
    let ps = pieces_of(split_pat(k.body_md, "\n\n"@));
    lemma_pieces_short(split_pat(k.body_md, "\n\n"@));
    lemma_gather_short(start, ps);
    let st = gather(start, ps);
    assert forall|i: int| 0 <= i < chunks_spec(k).len() && (blank(k.title) || i > 0)
        implies (#[trigger] chunks_spec(k)[i]).1.len() <= 800 by {
        if i < st.chunks.len() {
            assert(chunks_spec(k)[i] == st.chunks[i]);
        }
    }
}

} // verus!
