//! The knowledge base: short notes (title, Markdown body, tags) kept apart from
//! tasks. Tasks refer to notes one way; notes never hold tasks. Search is a
//! linear scan over the items in memory.
use vstd::prelude::*;
use vstd::string::*;
use crate::text::{
    blank, contains, contains_seq, is_blank, lowercase, owned, same_text, text_less, text_lt, to_lower, trim,
    trim_seq,
};
use crate::models::{KbItem, KbItemView, kb_views, texts_view};

verus! {

broadcast use vstd::string::group_string_axioms;

/// Upper bound on the number of knowledge items.
pub const NOTES_FILE_MAX_ITEMS: usize = 5000;

// ---------------------------------------------------------------- tags

/// Tags cleaned in order: trimmed, blank ones dropped, repeats dropped.
pub open spec fn tags_spec(tags: Seq<Seq<char>>) -> Seq<Seq<char>>
    decreases tags.len(),
{
    if tags.len() == 0 {
        Seq::empty()
    } else {
        let out = tags_spec(tags.drop_last());
        let t = trim_seq(tags.last());
        if t.len() == 0 || out.contains(t) { out } else { out.push(t) }
    }
}

fn has_text(v: &Vec<String>, s: &str) -> (b: bool)
    ensures
        b == texts_view(v@).contains(s@),
{
    let mut i: usize = 0;
    while i < v.len()
        invariant
            i <= v@.len(),
            forall|j: int| 0 <= j < i ==> (#[trigger] v@[j])@ != s@,
        decreases v@.len() - i,
    {
        if same_text(v[i].as_str(), s) {
            assert(texts_view(v@)[i as int] == s@);
            return true;
        }
        i = i + 1;
    }
    proof {
        if texts_view(v@).contains(s@) {
            let j = choose|j: int| 0 <= j < texts_view(v@).len() && texts_view(v@)[j] == s@;
            assert(v@[j]@ == s@);
        }
    }
    false
}

/// Tags trimmed, without blanks and without repeats, in their first order.
pub fn normalized_tags(tags: Vec<String>) -> (out: Vec<String>)
    ensures
        texts_view(out@) == tags_spec(texts_view(tags@)),
{
    let ghost ts = texts_view(tags@);
    let mut out: Vec<String> = Vec::new();
    let mut k: usize = 0;
    while k < tags.len()
        invariant
            k <= tags@.len(),
            ts == texts_view(tags@),
            texts_view(out@) == tags_spec(ts.take(k as int)),
        decreases tags@.len() - k,
    {
        proof {
            assert(ts.take(k + 1).drop_last() =~= ts.take(k as int));
            assert(ts.take(k + 1).last() == ts[k as int]);
        }
        let trimmed = trim(tags[k].as_str());
        if !is_blank(trimmed.as_str()) && !has_text(&out, trimmed.as_str()) {
            proof {
                crate::text::lemma_trim_idempotent(tags@[k as int]@);
            }
            let ghost b = texts_view(out@);
            out.push(trimmed);
            assert(texts_view(out@) =~= b.push(trim_seq(ts[k as int])));
        } else {
            proof {
                crate::text::lemma_trim_idempotent(tags@[k as int]@);
            }
        }
        k = k + 1;
    }
    assert(ts.take(ts.len() as int) =~= ts);
    out
}

// ---------------------------------------------------------------- create / update / delete

/// Add an item: the title must not be blank and the list must have room;
/// title and body are trimmed, tags cleaned, both stamps set.
pub fn create(
    items: &mut Vec<KbItem>,
    id: String,
    title: &str,
    body_md: &str,
    tags: Vec<String>,
    stamp: &str,
) -> (r: Result<KbItem, String>)
    ensures
        match r {
            Ok(item) => {
                &&& !blank(title@) && old(items)@.len() < 5000
                &&& item@ == (KbItemView {
                    id: id@,
                    title: trim_seq(title@),
                    body_md: trim_seq(body_md@),
                    tags: tags_spec(texts_view(tags@)),
                    created_at: stamp@,
                    updated_at: stamp@,
                })
                &&& kb_views(final(items)@) == kb_views(old(items)@).push(item@)
            },
            Err(e) => {
                &&& final(items)@ == old(items)@
                &&& if blank(title@) {
                    e@ == "标题不能为空"@
                } else {
                    old(items)@.len() >= 5000 && e@ == "知识条目已达上限，请先清理不需要的条目"@
                }
            },
        },
{
    if is_blank(title) {
        return Err(owned("标题不能为空"));
    }
    if items.len() >= NOTES_FILE_MAX_ITEMS {
        return Err(owned("知识条目已达上限，请先清理不需要的条目"));
    }
    let item = KbItem {
        id,
        title: trim(title),
        body_md: trim(body_md),
        tags: normalized_tags(tags),
        created_at: owned(stamp),
        updated_at: owned(stamp),
    };
    let ghost before = kb_views(items@);
    items.push(item.duplicate());
    assert(kb_views(items@) =~= before.push(item@));
    Ok(item)
}

/// Position of the first item with this id.
pub open spec fn kb_pos(ks: Seq<KbItemView>, id: Seq<char>) -> Option<int> {
    if exists|i: int| 0 <= i < ks.len() && ks[i].id == id {
        Some(choose|i: int| 0 <= i < ks.len() && ks[i].id == id && forall|j: int| 0 <= j < i ==> ks[j].id != id)
    } else {
        None
    }
}

fn find_item(items: &Vec<KbItem>, id: &str) -> (r: Option<usize>)
    ensures
        match r {
            Some(i) => i < items@.len() && items@[i as int].id@ == id@
                && forall|j: int| 0 <= j < i ==> (#[trigger] items@[j]).id@ != id@,
            None => forall|j: int| 0 <= j < items@.len() ==> (#[trigger] items@[j]).id@ != id@,
        },
{
    let mut i: usize = 0;
    while i < items.len()
        invariant
            i <= items@.len(),
            forall|j: int| 0 <= j < i ==> (#[trigger] items@[j]).id@ != id@,
        decreases items@.len() - i,
    {
        if same_text(items[i].id.as_str(), id) {
            return Some(i);
        }
        i = i + 1;
    }
    None
}

proof fn lemma_kb_pos(ks: Seq<KbItemView>, id: Seq<char>, i: int)
    requires
        0 <= i < ks.len(),
        ks[i].id == id,
        forall|j: int| 0 <= j < i ==> ks[j].id != id,
    ensures
        kb_pos(ks, id) == Some(i),
{
    let k = choose|k: int| 0 <= k < ks.len() && ks[k].id == id && forall|j: int| 0 <= j < k ==> ks[j].id != id;
    assert(0 <= i < ks.len() && ks[i].id == id && forall|j: int| 0 <= j < i ==> ks[j].id != id);
    if k < i {
        assert(ks[k].id != id);
    }
    if i < k {
        assert(ks[i].id != id);
    }
}

/// Change the given fields of the first item with this id and stamp it.
pub fn update(
    items: &mut Vec<KbItem>,
    id: &str,
    title: Option<&str>,
    body_md: Option<&str>,
    tags: Option<Vec<String>>,
    stamp: &str,
) -> (r: Result<KbItem, String>)
    ensures
        match kb_pos(kb_views(old(items)@), id@) {
            None => r matches Err(e) && e@ == "找不到这条资料，可能已经被删除"@ && final(items)@ == old(items)@,
            Some(i) => {
                let old_item = kb_views(old(items)@)[i];
                if title matches Some(t) && blank(t@) {
                    r matches Err(e) && e@ == "标题不能为空"@ && final(items)@ == old(items)@
                } else {
                    let item = KbItemView {
                        title: if title is Some { trim_seq(title->0@) } else { old_item.title },
                        body_md: if body_md is Some { trim_seq(body_md->0@) } else { old_item.body_md },
                        tags: if tags is Some { tags_spec(texts_view(tags->0@)) } else { old_item.tags },
                        updated_at: stamp@,
                        ..old_item
                    };
                    &&& r matches Ok(k) && k@ == item
                    &&& kb_views(final(items)@) == kb_views(old(items)@).update(i, item)
                }
            },
        },
{
    let index = match find_item(items, id) {
        Some(i) => i,
        None => {
            proof {
                if exists|i: int| 0 <= i < kb_views(items@).len() && kb_views(items@)[i].id == id@ {
                    let i = choose|i: int| 0 <= i < kb_views(items@).len() && kb_views(items@)[i].id == id@;
                    assert(items@[i].id@ == id@);
                }
            }
            return Err(owned("找不到这条资料，可能已经被删除"));
        },
    };
    proof {
        lemma_kb_pos(kb_views(items@), id@, index as int);
    }
    if let Some(value) = title {
        if is_blank(value) {
            return Err(owned("标题不能为空"));
        }
    }
    let ghost before = kb_views(items@);
    let mut item = items[index].duplicate();
    if let Some(value) = title {
        item.title = trim(value);
    }
    if let Some(value) = body_md {
        item.body_md = trim(value);
    }
    if let Some(value) = tags {
        item.tags = normalized_tags(value);
    }
    item.updated_at = owned(stamp);
    items.set(index, item.duplicate());
    assert(kb_views(items@) =~= before.update(index as int, item@));
    Ok(item)
}

/// Remove every item with this id; `Ok(true)` when one was removed.
pub fn delete(items: &mut Vec<KbItem>, id: &str) -> (r: Result<bool, String>)
    ensures
        final(items)@ == old(items)@.filter(|k: KbItem| k.id@ != id@),
        match r {
            Ok(b) => b && exists|i: int| 0 <= i < old(items)@.len() && old(items)@[i].id@ == id@,
            Err(e) => e@ == "找不到这条资料，可能已经被删除"@
                && forall|i: int| 0 <= i < old(items)@.len() ==> old(items)@[i].id@ != id@,
        },
{
    let ghost orig = items@;
    let ghost pred = |k: KbItem| k.id@ != id@;
    let mut rest: Vec<KbItem> = Vec::new();
    std::mem::swap(&mut rest, items);
    assert(orig.len() == rest.len());
    let mut removed = false;
    let mut k: usize = 0;
    while rest.len() > 0
        invariant
            k <= orig.len(),
            orig.len() <= usize::MAX,
            rest@ == orig.skip(k as int),
            pred == (|k: KbItem| k.id@ != id@),
            items@ == orig.take(k as int).filter(pred),
            removed == exists|i: int| 0 <= i < k && orig[i].id@ == id@,
        decreases rest@.len(),
    {
        let e = rest.remove(0);
        proof {
            assert(e == orig[k as int]);
            assert(orig.take(k + 1) =~= orig.take(k as int).push(orig[k as int]));
            crate::store::lemma_filter_push(orig.take(k as int), pred, orig[k as int]);
            assert(rest@ =~= orig.skip(k + 1));
        }
        if same_text(e.id.as_str(), id) {
            removed = true;
        } else {
            items.push(e);
        }
        k = k + 1;
    }
    assert(orig.take(orig.len() as int) =~= orig);
    if !removed {
        return Err(owned("找不到这条资料，可能已经被删除"));
    }
    Ok(true)
}

// ---------------------------------------------------------------- search

/// Relevance of an item to a lowered query, in half points: a title hit
/// weighs 2 (4 half points), a hit in any tag 1.5 (3), a body hit 1 (2).
pub open spec fn score_spec(k: KbItemView, q: Seq<char>) -> nat {
    (if contains_seq(lowercase(k.title), q) { 4nat } else { 0nat })
        + (if exists|i: int| 0 <= i < k.tags.len() && contains_seq(lowercase(k.tags[i]), q) { 3nat } else { 0nat })
        + (if contains_seq(lowercase(k.body_md), q) { 2nat } else { 0nat })
}

/// `a` ranks strictly before `b`: higher score, then later update.
pub open spec fn ranks_before(a: (nat, KbItemView), b: (nat, KbItemView)) -> bool {
    a.0 > b.0 || (a.0 == b.0 && text_lt(b.1.updated_at, a.1.updated_at))
}

/// `x` inserted into a ranked list after everything it does not outrank.
pub open spec fn ranked_insert(s: Seq<(nat, KbItemView)>, x: (nat, KbItemView)) -> Seq<(nat, KbItemView)>
    decreases s.len(),
{
    if s.len() == 0 {
        seq![x]
    } else if ranks_before(x, s[0]) {
        seq![x] + s
    } else {
        seq![s[0]] + ranked_insert(s.drop_first(), x)
    }
}

/// The stable ranking of a list: ties keep their order.
pub open spec fn ranked(s: Seq<(nat, KbItemView)>) -> Seq<(nat, KbItemView)>
    decreases s.len(),
{
    if s.len() == 0 {
        Seq::empty()
    } else {
        ranked_insert(ranked(s.drop_last()), s.last())
    }
}

/// Scored items that match (every item when the query is empty), in order.
pub open spec fn scored_spec(ks: Seq<KbItemView>, q: Seq<char>) -> Seq<(nat, KbItemView)>
    decreases ks.len(),
{
    if ks.len() == 0 {
        Seq::empty()
    } else {
        let rest = scored_spec(ks.drop_last(), q);
        let k = ks.last();
        if q.len() == 0 {
            rest.push((0nat, k))
        } else if score_spec(k, q) > 0 {
            rest.push((score_spec(k, q), k))
        } else {
            rest
        }
    }
}

/// Ids of the items a query finds, best first.
pub open spec fn search_spec(ks: Seq<KbItemView>, query: Seq<char>) -> Seq<Seq<char>> {
    let q = lowercase(trim_seq(query));
    ranked(scored_spec(ks, q)).map_values(|e: (nat, KbItemView)| e.1.id)
}

fn any_tag_contains(tags: &Vec<String>, q: &str) -> (b: bool)
    ensures
        b == exists|i: int| 0 <= i < tags@.len() && contains_seq(lowercase(tags@[i]@), q@),
{
    let mut i: usize = 0;
    while i < tags.len()
        invariant
            i <= tags@.len(),
            forall|j: int| 0 <= j < i ==> !contains_seq(lowercase((#[trigger] tags@[j])@), q@),
        decreases tags@.len() - i,
    {
        let lowered = to_lower(tags[i].as_str());
        if contains(lowered.as_str(), q) {
            return true;
        }
        i = i + 1;
    }
    false
}

fn score_of(item: &KbItem, q: &str) -> (s: u32)
    ensures
        s as nat == score_spec(item@, q@),
{
    let mut score: u32 = 0;
    let t = to_lower(item.title.as_str());
    if contains(t.as_str(), q) {
        score = score + 4;
    }
    if any_tag_contains(&item.tags, q) {
        score = score + 3;
        assert(exists|i: int| 0 <= i < item@.tags.len() && contains_seq(lowercase(item@.tags[i]), q@)) by {
            let i = choose|i: int| 0 <= i < item.tags@.len() && contains_seq(lowercase(item.tags@[i]@), q@);
            assert(item@.tags[i] == item.tags@[i]@);
        }
    } else {
        assert(!exists|i: int| 0 <= i < item@.tags.len() && contains_seq(lowercase(item@.tags[i]), q@)) by {
            if exists|i: int| 0 <= i < item@.tags.len() && contains_seq(lowercase(item@.tags[i]), q@) {
                let i = choose|i: int| 0 <= i < item@.tags.len() && contains_seq(lowercase(item@.tags[i]), q@);
                assert(item@.tags[i] == item.tags@[i]@);
            }
        }
    }
    let b = to_lower(item.body_md.as_str());
    if contains(b.as_str(), q) {
        score = score + 2;
    }
    score
}

pub open spec fn entries_view(v: Seq<(u32, usize)>, ks: Seq<KbItemView>) -> Seq<(nat, KbItemView)> {
    v.map_values(|e: (u32, usize)| (e.0 as nat, ks[e.1 as int]))
}

/// Insert an entry into a ranked list of (score, index) entries.
fn insert_ranked(list: &mut Vec<(u32, usize)>, x: (u32, usize), items: &[KbItem])
    requires
        x.1 < items@.len(),
        forall|i: int| 0 <= i < old(list)@.len() ==> (#[trigger] old(list)@[i]).1 < items@.len(),
    ensures
        entries_view(final(list)@, kb_views(items@)) == ranked_insert(entries_view(old(list)@, kb_views(items@)), (x.0 as nat, kb_views(items@)[x.1 as int])),
        forall|i: int| 0 <= i < final(list)@.len() ==> (#[trigger] final(list)@[i]).1 < items@.len(),
{
    let ghost ks = kb_views(items@);
    let ghost xv = (x.0 as nat, ks[x.1 as int]);
    let ghost l0 = entries_view(list@, ks);
    let mut pos: usize = 0;
    let mut found = false;
    while pos < list.len() && !found
        invariant
            pos <= list@.len(),
            list@ == old(list)@,
            l0 == entries_view(list@, ks),
            ks == kb_views(items@),
            x.1 < items@.len(),
            xv == (x.0 as nat, ks[x.1 as int]),
            forall|i: int| 0 <= i < list@.len() ==> (#[trigger] list@[i]).1 < items@.len(),
            found ==> pos < list@.len() && ranks_before(xv, l0[pos as int]),
            forall|j: int| 0 <= j < pos ==> !ranks_before(xv, #[trigger] l0[j]),
        decreases list@.len() - pos + (if found { 0int } else { 1int }),
    {
        let e = list[pos];
        let before = if x.0 != e.0 {
            x.0 > e.0
        } else {
            text_less(items[e.1].updated_at.as_str(), items[x.1].updated_at.as_str())
        };
        assert(before == ranks_before(xv, l0[pos as int]));
        if before {
            found = true;
        } else {
            pos = pos + 1;
        }
    }
    proof {
        lemma_ranked_insert_at(l0, xv, pos as int);
    }
    list.insert(pos, x);
    assert(entries_view(list@, ks) =~= l0.take(pos as int) + seq![xv] + l0.skip(pos as int));
}

proof fn lemma_ranked_insert_at(s: Seq<(nat, KbItemView)>, x: (nat, KbItemView), p: int)
    requires
        0 <= p <= s.len(),
        forall|j: int| 0 <= j < p ==> !ranks_before(x, #[trigger] s[j]),
        p < s.len() ==> ranks_before(x, s[p]),
    ensures
        ranked_insert(s, x) == s.take(p) + seq![x] + s.skip(p),
    decreases s.len(),
{
    if s.len() == 0 {
        assert(s.take(p) + seq![x] + s.skip(p) =~= seq![x]);
    } else if p == 0 {
        assert(s.take(p) + seq![x] + s.skip(p) =~= seq![x] + s);
    } else {
        let t = s.drop_first();
        assert forall|j: int| 0 <= j < p - 1 implies !ranks_before(x, #[trigger] t[j]) by {
            assert(t[j] == s[j + 1]);
        }
        if p - 1 < t.len() {
            assert(t[p - 1] == s[p]);
        }
        lemma_ranked_insert_at(t, x, p - 1);
        assert(s.take(p) + seq![x] + s.skip(p) =~= seq![s[0]] + (t.take(p - 1) + seq![x] + t.skip(p - 1)));
    }
}

/// Search the items for a query (trimmed, lower-cased, case-insensitive
/// substring match). A title hit weighs 2, any tag 1.5, the body 1; items that
/// score nothing are left out unless the query is empty, which finds every
/// item. Best score first, then the latest update; ties keep their order.
pub fn search(items: &[KbItem], query: &str) -> (ids: Vec<String>)
    ensures
        ids@.map_values(|s: String| s@) == search_spec(kb_views(items@), query@),
{
    let t = trim(query);
    let q = to_lower(t.as_str());
    let ghost ks = kb_views(items@);
    let ghost qv = q@;
    let empty = q.unicode_len() == 0;
    let mut list: Vec<(u32, usize)> = Vec::new();
    let mut k: usize = 0;
    while k < items.len()
        invariant
            k <= items@.len(),
            ks == kb_views(items@),
            qv == q@,
            empty == (qv.len() == 0),
            forall|i: int| 0 <= i < list@.len() ==> (#[trigger] list@[i]).1 < items@.len(),
            entries_view(list@, ks) == ranked(scored_spec(ks.take(k as int), qv)),
        decreases items@.len() - k,
    {
        proof {
            assert(ks.take(k + 1).drop_last() =~= ks.take(k as int));
            assert(ks.take(k + 1).last() == ks[k as int]);
        }
        let ghost sc = scored_spec(ks.take(k as int), qv);
        if empty {
            insert_ranked(&mut list, (0, k), items);
            assert(scored_spec(ks.take(k + 1), qv) =~= sc.push((0nat, ks[k as int])));
            assert(sc.push((0nat, ks[k as int])).drop_last() =~= sc);
        } else {
            let s = score_of(&items[k], q.as_str());
            assert(items@[k as int]@ == ks[k as int]);
            if s > 0 {
                insert_ranked(&mut list, (s, k), items);
                assert(scored_spec(ks.take(k + 1), qv) =~= sc.push((s as nat, ks[k as int])));
                assert(sc.push((s as nat, ks[k as int])).drop_last() =~= sc);
            } else {
                assert(scored_spec(ks.take(k + 1), qv) =~= scored_spec(ks.take(k as int), qv));
            }
        }
        k = k + 1;
    }
    assert(ks.take(ks.len() as int) =~= ks);
    let mut ids: Vec<String> = Vec::new();
    let mut j: usize = 0;
    while j < list.len()
        invariant
            j <= list@.len(),
            forall|i: int| 0 <= i < list@.len() ==> (#[trigger] list@[i]).1 < items@.len(),
            ks == kb_views(items@),
            ids@.map_values(|s: String| s@) == entries_view(list@, ks).take(j as int).map_values(|e: (nat, KbItemView)| e.1.id),
        decreases list@.len() - j,
    {
        let ghost b = ids@.map_values(|s: String| s@);
        ids.push(items[list[j].1].id.clone());
        assert(ids@.map_values(|s: String| s@) =~= b.push(ks[list@[j as int].1 as int].id));
        j = j + 1;
        assert(entries_view(list@, ks).take(j as int).map_values(|e: (nat, KbItemView)| e.1.id)
            =~= entries_view(list@, ks).take(j - 1).map_values(|e: (nat, KbItemView)| e.1.id).push(ks[list@[j - 1].1 as int].id));
    }
    assert(entries_view(list@, ks).take(list@.len() as int) =~= entries_view(list@, ks));
    ids
}

/// An item with no title and no tag hit (at most a body hit).
pub open spec fn body_only(k: KbItemView, q: Seq<char>) -> bool {
    &&& !contains_seq(lowercase(k.title), q)
    &&& !exists|i: int| 0 <= i < k.tags.len() && contains_seq(lowercase(k.tags[i]), q)
}

/// Relevance weights: a title hit outweighs a tag hit, which outweighs a body
/// hit. An item with a title hit scores above any item with neither a title
/// nor a tag hit, and so ranks before it whatever their update times; an item
/// with a tag hit scores above one with at most a body hit.
pub proof fn law_title_outweighs_tag_outweighs_body(a: KbItemView, b: KbItemView, q: Seq<char>)
    ensures
        contains_seq(lowercase(a.title), q) && body_only(b, q) ==> score_spec(a, q) > score_spec(b, q)
            && ranks_before((score_spec(a, q), a), (score_spec(b, q), b)),
        (exists|i: int| 0 <= i < a.tags.len() && contains_seq(lowercase(a.tags[i]), q)) && body_only(b, q)
            ==> score_spec(a, q) > score_spec(b, q),
        contains_seq(lowercase(a.title), q) && !contains_seq(lowercase(b.title), q)
            && !contains_seq(lowercase(b.body_md), q) ==> score_spec(a, q) > score_spec(b, q),
{
}

/// No later entry ranks before an earlier one.
pub open spec fn in_rank_order(s: Seq<(nat, KbItemView)>) -> bool {
    forall|i: int, j: int| 0 <= i < j < s.len() ==> !ranks_before(#[trigger] s[j], #[trigger] s[i])
}

proof fn lemma_ranks_before_transitive(a: (nat, KbItemView), b: (nat, KbItemView), c: (nat, KbItemView))
    requires
        ranks_before(a, b),
        ranks_before(b, c),
    ensures
        ranks_before(a, c),
{
    if a.0 == b.0 && b.0 == c.0 {
        crate::text::lemma_text_lt_transitive(c.1.updated_at, b.1.updated_at, a.1.updated_at);
    }
}

proof fn lemma_ranks_before_asymmetric(a: (nat, KbItemView), b: (nat, KbItemView))
    requires
        ranks_before(a, b),
    ensures
        !ranks_before(b, a),
{
    if a.0 == b.0 && ranks_before(b, a) {
        crate::text::lemma_text_lt_transitive(a.1.updated_at, b.1.updated_at, a.1.updated_at);
        crate::text::lemma_text_lt_irreflexive(a.1.updated_at);
    }
}

proof fn lemma_insert_in_order(s: Seq<(nat, KbItemView)>, x: (nat, KbItemView))
    requires
        in_rank_order(s),
    ensures
        in_rank_order(ranked_insert(s, x)),
        ranked_insert(s, x).len() == s.len() + 1,
        forall|k: int| 0 <= k < ranked_insert(s, x).len() ==> #[trigger] ranked_insert(s, x)[k] == x
            || s.contains(ranked_insert(s, x)[k]),
    decreases s.len(),
{
    let r = ranked_insert(s, x);
    if s.len() == 0 {
    } else if ranks_before(x, s[0]) {
        assert(r == seq![x] + s);
        assert forall|i: int, j: int| 0 <= i < j < r.len() implies !ranks_before(#[trigger] r[j], #[trigger] r[i]) by {
            if i == 0 {
                assert(r[j] == s[j - 1]);
                if ranks_before(s[j - 1], x) {
                    lemma_ranks_before_transitive(s[j - 1], x, s[0]);
                    if j - 1 == 0 {
                        lemma_ranks_before_asymmetric(s[0], s[0]);
                    } else {
                        assert(!ranks_before(s[j - 1], s[0]));
                    }
                }
            } else {
                assert(r[i] == s[i - 1] && r[j] == s[j - 1]);
            }
        }
        assert forall|k: int| 0 <= k < r.len() implies #[trigger] r[k] == x || s.contains(r[k]) by {
            if k > 0 {
                assert(r[k] == s[k - 1]);
            }
        }
    } else {
        let rest = s.drop_first();
        assert(in_rank_order(rest)) by {
            assert forall|i: int, j: int| 0 <= i < j < rest.len() implies !ranks_before(#[trigger] rest[j], #[trigger] rest[i]) by {
                assert(rest[i] == s[i + 1] && rest[j] == s[j + 1]);
            }
        }
        lemma_insert_in_order(rest, x);
        let r2 = ranked_insert(rest, x);
        assert(r == seq![s[0]] + r2);
        assert forall|i: int, j: int| 0 <= i < j < r.len() implies !ranks_before(#[trigger] r[j], #[trigger] r[i]) by {
            if i == 0 {
                assert(r[j] == r2[j - 1]);
                if r2[j - 1] == x {
                } else {
                    assert(rest.contains(r2[j - 1]));
                    let m = choose|m: int| 0 <= m < rest.len() && rest[m] == r2[j - 1];
                    assert(s[m + 1] == rest[m]);
                    assert(!ranks_before(s[m + 1], s[0]));
                }
            } else {
                assert(r[i] == r2[i - 1] && r[j] == r2[j - 1]);
            }
        }
        assert forall|k: int| 0 <= k < r.len() implies #[trigger] r[k] == x || s.contains(r[k]) by {
            if k == 0 {
                assert(s[0] == r[0]);
            } else {
                assert(r[k] == r2[k - 1]);
                if r2[k - 1] != x {
                    let m = choose|m: int| 0 <= m < rest.len() && rest[m] == r2[k - 1];
                    assert(s[m + 1] == rest[m]);
                }
            }
        }
    }
}

proof fn lemma_ranked_in_order(s: Seq<(nat, KbItemView)>)
    ensures
        in_rank_order(ranked(s)),
        forall|k: int| 0 <= k < ranked(s).len() ==> s.contains(#[trigger] ranked(s)[k]),
    decreases s.len(),
{
    if s.len() > 0 {
        let p = s.drop_last();
        lemma_ranked_in_order(p);
        lemma_insert_in_order(ranked(p), s.last());
        let r = ranked(s);
        assert forall|k: int| 0 <= k < r.len() implies s.contains(#[trigger] r[k]) by {
            if r[k] == s.last() {
                assert(s[s.len() - 1] == s.last());
            } else {
                let m = choose|m: int| 0 <= m < ranked(p).len() && ranked(p)[m] == r[k];
                assert(p.contains(ranked(p)[m]));
                let n = choose|n: int| 0 <= n < p.len() && p[n] == ranked(p)[m];
                assert(s[n] == p[n]);
            }
        }
    }
}

proof fn lemma_scored_entries(ks: Seq<KbItemView>, q: Seq<char>)
    requires
        q.len() > 0,
    ensures
        forall|k: int| 0 <= k < scored_spec(ks, q).len() ==> (#[trigger] scored_spec(ks, q)[k]).0 == score_spec(scored_spec(ks, q)[k].1, q),
    decreases ks.len(),
{
    if ks.len() > 0 {
        lemma_scored_entries(ks.drop_last(), q);
        let rest = scored_spec(ks.drop_last(), q);
        let sc = scored_spec(ks, q);
        assert forall|k: int| 0 <= k < sc.len() implies (#[trigger] sc[k]).0 == score_spec(sc[k].1, q) by {
            if k < rest.len() {
                assert(sc[k] == rest[k]);
            }
        }
    }
}

/// In a search for a non-blank query, an item with a title hit comes before
/// every found item with neither a title nor a tag hit (one matching only in
/// its body), whatever their update times.
pub proof fn law_title_hit_found_first(ks: Seq<KbItemView>, query: Seq<char>, a: int, b: int)
    requires
        lowercase(trim_seq(query)).len() > 0,
        0 <= a < ranked(scored_spec(ks, lowercase(trim_seq(query)))).len(),
        0 <= b < ranked(scored_spec(ks, lowercase(trim_seq(query)))).len(),
        contains_seq(lowercase(ranked(scored_spec(ks, lowercase(trim_seq(query))))[a].1.title), lowercase(trim_seq(query))),
        body_only(ranked(scored_spec(ks, lowercase(trim_seq(query))))[b].1, lowercase(trim_seq(query))),
    ensures
        a < b,
        search_spec(ks, query).len() == ranked(scored_spec(ks, lowercase(trim_seq(query)))).len(),
        search_spec(ks, query)[a] == ranked(scored_spec(ks, lowercase(trim_seq(query))))[a].1.id,
        search_spec(ks, query)[b] == ranked(scored_spec(ks, lowercase(trim_seq(query))))[b].1.id,
{
    let q = lowercase(trim_seq(query));
    let sc = scored_spec(ks, q);
    let r = ranked(sc);
    lemma_ranked_in_order(sc);
    lemma_scored_entries(ks, q);
    let m = choose|m: int| 0 <= m < sc.len() && sc[m] == r[a];
    let n = choose|n: int| 0 <= n < sc.len() && sc[n] == r[b];
    assert(r[a].0 == score_spec(r[a].1, q));
    assert(r[b].0 == score_spec(r[b].1, q));
    law_title_outweighs_tag_outweighs_body(r[a].1, r[b].1, q);
    if a >= b {
        if a == b {
        } else {
            assert(!ranks_before(r[a], r[b]));
        }
    }
}

} // verus!
