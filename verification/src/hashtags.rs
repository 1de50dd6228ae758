//! Streaming hashtag aggregation: one pass in store order assigns each
//! first-seen (trimmed) tag text a stable identifier starting at 1,
//! accumulates per-tag occurrence counts, and records one timestamped
//! occurrence row per (post, tag) pair. All posts contribute tags,
//! regardless of their eligibility for the scoring tables.

use vstd::prelude::*;
use crate::decode::tag_list;
use crate::decode::unwrap_string_array;
use crate::rows::DictEntry;
use crate::rows::DictEntryV;
use crate::rows::GPUHashtag;
use crate::rows::GPUHashtagV;
use crate::rows::PipelineError;
use crate::rows::StoredPost;
use crate::shims::parse_timestamp;
use crate::shims::parse_ts;
use crate::shims::trim_of;
use crate::shims::trim_text;
use crate::store::PostStore;

verus! {

/// The hashtag dictionary: entries in first-seen order of their texts.
pub struct HashtagDictionary {
    pub entries: Vec<DictEntry>,
}

impl View for HashtagDictionary {
    type V = Seq<DictEntryV>;

    open spec fn view(&self) -> Seq<DictEntryV> {
        self.entries.deep_view()
    }
}

/// The post's own epoch seconds, as the aggregation pass uses them.
pub open spec fn post_ts(p: StoredPost) -> i64 {
    parse_ts(p.post.tweet.tweet_time@)->0
}

/// The post's decoded, untrimmed tag texts.
pub open spec fn post_tags(p: StoredPost) -> Seq<Seq<char>> {
    tag_list(p.post.tweet.hashtags@)
}

/// Whether every stored post's own timestamp parses.
pub open spec fn times_ok(s: Seq<StoredPost>) -> bool {
    forall|k: int| 0 <= k < s.len() ==> parse_ts(#[trigger] s[k].post.tweet.tweet_time@) is Some
}

/// Index of the entry holding `text`, or -1 where no entry does.
pub open spec fn dict_find(d: Seq<DictEntryV>, text: Seq<char>) -> int
    decreases d.len(),
{
    if d.len() == 0 {
        -1
    } else if d[0].text == text {
        0
    } else {
        let r = dict_find(d.drop_first(), text);
        if r == -1 {
            -1
        } else {
            r + 1
        }
    }
}

/// `dict_find` returns the first matching index, and -1 exactly where no
/// entry holds `text`.
pub proof fn lemma_dict_find(d: Seq<DictEntryV>, text: Seq<char>)
    ensures
        -1 <= dict_find(d, text) < d.len(),
        dict_find(d, text) >= 0 ==> d[dict_find(d, text)].text == text,
        dict_find(d, text) >= 0 ==> forall|k: int|
            0 <= k < dict_find(d, text) ==> #[trigger] d[k].text != text,
        dict_find(d, text) == -1 ==> forall|k: int| 0 <= k < d.len() ==> #[trigger] d[k].text != text,
    decreases d.len(),
{
    if d.len() == 0 {
    } else if d[0].text == text {
    } else {
        let t = d.drop_first();
        lemma_dict_find(t, text);
        let rt = dict_find(t, text);
        if rt == -1 {
            assert forall|k: int| 0 <= k < d.len() implies #[trigger] d[k].text != text by {
                if k > 0 {
                    assert(t[k - 1] == d[k]);
                }
            }
        } else {
            assert(d[rt + 1] == t[rt]);
            assert forall|k: int| 0 <= k < rt + 1 implies #[trigger] d[k].text != text by {
                if k > 0 {
                    assert(t[k - 1] == d[k]);
                }
            }
        }
    }
}

/// One tag's effect on the aggregation state: a known (trimmed) text reuses
/// its identifier and raises its count; a fresh text is appended with the
/// next sequential identifier and count 1. Either way one occurrence row is
/// recorded with the post's timestamp and offset 0.
pub open spec fn agg_tag(
    d: Seq<DictEntryV>,
    o: Seq<GPUHashtagV>,
    ts: i64,
    raw: Seq<char>,
) -> (Seq<DictEntryV>, Seq<GPUHashtagV>) {
    let text = trim_of(raw);
    let k = dict_find(d, text);
    if k >= 0 {
        (
            d.update(k, DictEntryV { text: d[k].text, id: d[k].id, count: (d[k].count + 1) as u64 }),
            o.push(GPUHashtagV { tweet_time: ts, hash_id: d[k].id, offset: 0, text }),
        )
    } else {
        let nid = (d.len() + 1) as u64;
        (
            d.push(DictEntryV { text, id: nid, count: 1 }),
            o.push(GPUHashtagV { tweet_time: ts, hash_id: nid, offset: 0, text }),
        )
    }
}

/// The aggregation state after one post's tags from position `j` on.
pub open spec fn agg_tags(
    d: Seq<DictEntryV>,
    o: Seq<GPUHashtagV>,
    ts: i64,
    tags: Seq<Seq<char>>,
    j: int,
) -> (Seq<DictEntryV>, Seq<GPUHashtagV>)
    decreases tags.len() - j,
{
    if j < 0 || j >= tags.len() {
        (d, o)
    } else {
        let next = agg_tag(d, o, ts, tags[j]);
        agg_tags(next.0, next.1, ts, tags, j + 1)
    }
}

/// The aggregation state after the posts from position `i` on.
pub open spec fn agg_posts(
    s: Seq<StoredPost>,
    i: int,
    d: Seq<DictEntryV>,
    o: Seq<GPUHashtagV>,
) -> (Seq<DictEntryV>, Seq<GPUHashtagV>)
    decreases s.len() - i,
{
    if i < 0 || i >= s.len() {
        (d, o)
    } else {
        let next = agg_tags(d, o, post_ts(s[i]), post_tags(s[i]), 0);
        agg_posts(s, i + 1, next.0, next.1)
    }
}

/// The completed hashtag dictionary of a store.
pub open spec fn dict_of(s: Seq<StoredPost>) -> Seq<DictEntryV> {
    agg_posts(s, 0, Seq::<DictEntryV>::empty(), Seq::<GPUHashtagV>::empty()).0
}

/// The completed occurrence list of a store.
pub open spec fn occs_of(s: Seq<StoredPost>) -> Seq<GPUHashtagV> {
    agg_posts(s, 0, Seq::<DictEntryV>::empty(), Seq::<GPUHashtagV>::empty()).1
}

/// The total number of (post, tag) pairs a store contributes.
pub open spec fn tag_total(s: Seq<StoredPost>) -> nat
    decreases s.len(),
{
    if s.len() == 0 {
        0
    } else {
        tag_total(s.drop_last()) + post_tags(s.last()).len()
    }
}

pub proof fn lemma_tag_total_take(s: Seq<StoredPost>, i: int)
    requires
        0 <= i < s.len(),
    ensures
        tag_total(s.take(i + 1)) == tag_total(s.take(i)) + post_tags(s[i]).len(),
{
    assert(s.take(i + 1).drop_last() =~= s.take(i));
    assert(s.take(i + 1).last() == s[i]);
}

pub proof fn lemma_tag_total_mono(s: Seq<StoredPost>, i: int)
    requires
        0 <= i <= s.len(),
    ensures
        tag_total(s.take(i)) <= tag_total(s),
    decreases s.len() - i,
{
    if i == s.len() {
        assert(s.take(i) =~= s);
    } else {
        lemma_tag_total_take(s, i);
        lemma_tag_total_mono(s, i + 1);
    }
}

/// Linear dictionary lookup by (trimmed) tag text.
pub fn dict_find_exec(entries: &Vec<DictEntry>, text: &String) -> (r: Option<usize>)
    ensures
        r matches Some(k) ==> dict_find(entries.deep_view(), text@) == k as int && k
            < entries@.len(),
        r is None ==> dict_find(entries.deep_view(), text@) == -1,
{
    let ghost d = entries.deep_view();
    let mut i: usize = 0;
    while i < entries.len()
        invariant
            0 <= i <= entries@.len(),
            d == entries.deep_view(),
            d.len() == entries@.len(),
            forall|k: int| 0 <= k < i ==> #[trigger] d[k].text != text@,
        decreases entries@.len() - i,
    {
        proof {
            assert(d[i as int] == entries@[i as int].deep_view());
        }
        if entries[i].text == *text {
            proof {
                assert(d[i as int].text == text@);
                lemma_dict_find(d, text@);
                assert(dict_find(d, text@) == i as int);
            }
            return Some(i);
        }
        i += 1;
    }
    proof {
        lemma_dict_find(d, text@);
    }
    None
}

/// The aggregation pass: in store order, every post's tag list is decoded,
/// each tag is trimmed and looked up, the dictionary is updated, and one
/// occurrence row is recorded. Fails exactly where some post's own
/// timestamp does not parse.
#[verifier::loop_isolation(false)]
pub fn aggregate_hashtags(store: &PostStore) -> (r: Result<
    (HashtagDictionary, Vec<GPUHashtag>),
    PipelineError,
>)
    requires
        tag_total(store.posts@) < u64::MAX,
    ensures
        r matches Ok(x) ==> times_ok(store.posts@) && x.0@ == dict_of(store.posts@)
            && x.1.deep_view() == occs_of(store.posts@),
        r matches Err(e) ==> !times_ok(store.posts@) && e == PipelineError::InvalidTimestamp,
{
    let ghost s = store.posts@;
    let ghost empty_d = Seq::<DictEntryV>::empty();
    let ghost empty_o = Seq::<GPUHashtagV>::empty();
    let mut dict = HashtagDictionary { entries: Vec::new() };
    let mut occs: Vec<GPUHashtag> = Vec::new();
    let n: usize = store.posts.len();
    let mut i: usize = 0;
    proof {
        assert(dict.entries.deep_view() =~= empty_d);
        assert(occs.deep_view() =~= empty_o);
        assert(s.take(0) =~= Seq::<StoredPost>::empty());
    }
    while i < n
        invariant
            0 <= i <= n,
            agg_posts(s, i as int, dict.entries.deep_view(), occs.deep_view()) == agg_posts(
                s,
                0,
                empty_d,
                empty_o,
            ),
            occs.deep_view().len() == tag_total(s.take(i as int)),
            occs@.len() == occs.deep_view().len(),
            dict.entries.deep_view().len() <= occs.deep_view().len(),
            forall|k: int|
                0 <= k < dict.entries.deep_view().len() ==> #[trigger] dict.entries.deep_view()[k].count
                    <= occs.deep_view().len(),
            forall|k: int| 0 <= k < i ==> parse_ts(#[trigger] s[k].post.tweet.tweet_time@) is Some,
        decreases n - i,
    {
        let p = &store.posts[i];
        let ts = match parse_timestamp(p.post.tweet.tweet_time.as_str()) {
            Option::None => {
                assert(parse_ts(s[i as int].post.tweet.tweet_time@) is None);
                return Err(PipelineError::InvalidTimestamp);
            },
            Option::Some(v) => v,
        };
        let tags = unwrap_string_array(&p.post.tweet.hashtags);
        let ghost tags_v = post_tags(s[i as int]);
        let ghost d_enter = dict.entries.deep_view();
        let ghost o_enter = occs.deep_view();
        proof {
            assert(tags.deep_view() == tags_v);
            lemma_tag_total_take(s, i as int);
            lemma_tag_total_mono(s, i + 1);
        }
        let mut j: usize = 0;
        while j < tags.len()
            invariant
                0 <= j <= tags@.len(),
                tags@.len() == tags_v.len(),
                tags.deep_view() == tags_v,
                agg_tags(
                    dict.entries.deep_view(),
                    occs.deep_view(),
                    ts,
                    tags_v,
                    j as int,
                ) == agg_tags(d_enter, o_enter, ts, tags_v, 0),
                occs.deep_view().len() == tag_total(s.take(i as int)) + j,
                occs@.len() == occs.deep_view().len(),
                dict.entries.deep_view().len() <= occs.deep_view().len(),
                forall|k: int|
                    0 <= k < dict.entries.deep_view().len() ==> #[trigger] dict.entries.deep_view()[k].count
                        <= occs.deep_view().len(),
            decreases tags@.len() - j,
        {
            let trimmed = trim_text(tags[j].as_str());
            proof {
                assert(tags@[j as int].deep_view() == tags_v[j as int]);
                assert(trimmed@ == trim_of(tags_v[j as int]));
            }
            let ghost d_old = dict.entries.deep_view();
            let ghost o_old = occs.deep_view();
            let found = dict_find_exec(&dict.entries, &trimmed);
            match found {
                Option::Some(k) => {
                    proof {
                        assert(d_old[k as int] == dict.entries@[k as int].deep_view());
                    }
                    let id = dict.entries[k].id;
                    let cnt = dict.entries[k].count;
                    occs.push(GPUHashtag { tweet_time: ts, hash_id: id, offset: 0, text: trimmed });
                    proof {
                        assert(occs.deep_view() =~= o_old.push(
                            GPUHashtagV {
                                tweet_time: ts,
                                hash_id: id,
                                offset: 0,
                                text: trim_of(tags_v[j as int]),
                            },
                        ));
                        assert(cnt <= o_old.len());
                        assert(occs.deep_view().len() == tag_total(s.take(i as int)) + j + 1);
                        assert(tag_total(s.take(i as int)) + j + 1 <= tag_total(s.take(i + 1)));
                        assert(tag_total(s.take(i + 1)) <= tag_total(s));
                        assert(cnt + 1 <= u64::MAX);
                    }
                    dict.entries[k].count = cnt + 1;
                    proof {
                        assert(dict.entries.deep_view() =~= d_old.update(
                            k as int,
                            DictEntryV {
                                text: d_old[k as int].text,
                                id: d_old[k as int].id,
                                count: (d_old[k as int].count + 1) as u64,
                            },
                        ));
                        assert(agg_tag(d_old, o_old, ts, tags_v[j as int]) == (
                            dict.entries.deep_view(),
                            occs.deep_view(),
                        ));
                    }
                },
                Option::None => {
                    proof {
                        assert(dict.entries@.len() == dict.entries.deep_view().len());
                        assert(dict.entries.deep_view().len() <= tag_total(s.take(i as int)) + j);
                        assert(tag_total(s.take(i as int)) + j + 1 <= tag_total(s.take(i + 1)));
                        assert(tag_total(s.take(i + 1)) <= tag_total(s));
                    }
                    let nid = (dict.entries.len() as u64) + 1;
                    occs.push(
                        GPUHashtag {
                            tweet_time: ts,
                            hash_id: nid,
                            offset: 0,
                            text: trimmed.clone(),
                        },
                    );
                    dict.entries.push(DictEntry { text: trimmed, id: nid, count: 1 });
                    proof {
                        assert(occs.deep_view() =~= o_old.push(
                            GPUHashtagV {
                                tweet_time: ts,
                                hash_id: nid,
                                offset: 0,
                                text: trim_of(tags_v[j as int]),
                            },
                        ));
                        assert(dict.entries.deep_view() =~= d_old.push(
                            DictEntryV { text: trim_of(tags_v[j as int]), id: nid, count: 1 },
                        ));
                        assert(agg_tag(d_old, o_old, ts, tags_v[j as int]) == (
                            dict.entries.deep_view(),
                            occs.deep_view(),
                        ));
                    }
                },
            }
            j += 1;
        }
        proof {
            assert(agg_tags(d_enter, o_enter, ts, tags_v, 0) == (
                dict.entries.deep_view(),
                occs.deep_view(),
            ));
            assert(ts == post_ts(s[i as int]));
            assert(agg_posts(s, i as int, d_enter, o_enter) == agg_posts(
                s,
                i + 1,
                dict.entries.deep_view(),
                occs.deep_view(),
            ));
        }
        i += 1;
    }
    proof {
        assert(s.take(i as int) =~= s);
        assert(agg_posts(s, i as int, dict.entries.deep_view(), occs.deep_view()) == (
            dict.entries.deep_view(),
            occs.deep_view(),
        ));
    }
    Ok((dict, occs))
}

/// Identifiers in a dictionary state are exactly position + 1.
pub open spec fn ids_sequential(d: Seq<DictEntryV>) -> bool {
    forall|k: int| 0 <= k < d.len() ==> #[trigger] d[k].id == k + 1
}

proof fn lemma_agg_tags_ids(
    d: Seq<DictEntryV>,
    o: Seq<GPUHashtagV>,
    ts: i64,
    tags: Seq<Seq<char>>,
    j: int,
)
    requires
        ids_sequential(d),
        d.len() + (if j < tags.len() { tags.len() - j } else { 0 }) <= u64::MAX,
    ensures
        ids_sequential(agg_tags(d, o, ts, tags, j).0),
        agg_tags(d, o, ts, tags, j).0.len() <= d.len() + (if j < tags.len() {
            tags.len() - j
        } else {
            0
        }),
    decreases tags.len() - j,
{
    if j < 0 || j >= tags.len() {
    } else {
        let next = agg_tag(d, o, ts, tags[j]);
        let text = trim_of(tags[j]);
        let f = dict_find(d, text);
        lemma_dict_find(d, text);
        assert(next.0.len() <= d.len() + 1);
        assert forall|k2: int| 0 <= k2 < next.0.len() implies #[trigger] next.0[k2].id == k2
            + 1 by {
            if f >= 0 {
                if k2 == f {
                    assert(next.0[k2].id == d[f].id);
                } else {
                    assert(next.0[k2] == d[k2]);
                }
            } else {
                if k2 == d.len() {
                    assert(next.0[k2].id == (d.len() + 1) as u64);
                } else {
                    assert(next.0[k2] == d[k2]);
                }
            }
        }
        lemma_agg_tags_ids(next.0, next.1, ts, tags, j + 1);
    }
}

proof fn lemma_agg_posts_ids(s: Seq<StoredPost>, i: int, d: Seq<DictEntryV>, o: Seq<GPUHashtagV>)
    requires
        ids_sequential(d),
        0 <= i <= s.len(),
        d.len() + tag_total_from(s, i) <= u64::MAX,
    ensures
        ids_sequential(agg_posts(s, i, d, o).0),
        agg_posts(s, i, d, o).0.len() <= d.len() + tag_total_from(s, i),
    decreases s.len() - i,
{
    if i < s.len() {
        let next = agg_tags(d, o, post_ts(s[i]), post_tags(s[i]), 0);
        lemma_agg_tags_ids(d, o, post_ts(s[i]), post_tags(s[i]), 0);
        lemma_agg_posts_ids(s, i + 1, next.0, next.1);
    }
}

/// The (post, tag) pairs contributed from position `i` on.
pub open spec fn tag_total_from(s: Seq<StoredPost>, i: int) -> nat
    decreases s.len() - i,
{
    if i < 0 || i >= s.len() {
        0
    } else {
        post_tags(s[i]).len() + tag_total_from(s, i + 1)
    }
}

/// Texts in a dictionary state are pairwise distinct.
pub open spec fn texts_unique(d: Seq<DictEntryV>) -> bool {
    forall|j: int, k: int| 0 <= j < k < d.len() ==> d[j].text != d[k].text
}

proof fn lemma_agg_tags_texts(
    d: Seq<DictEntryV>,
    o: Seq<GPUHashtagV>,
    ts: i64,
    tags: Seq<Seq<char>>,
    j: int,
)
    requires
        texts_unique(d),
    ensures
        texts_unique(agg_tags(d, o, ts, tags, j).0),
    decreases tags.len() - j,
{
    if j < 0 || j >= tags.len() {
    } else {
        let next = agg_tag(d, o, ts, tags[j]);
        let text = trim_of(tags[j]);
        let f = dict_find(d, text);
        lemma_dict_find(d, text);
        assert forall|a: int, b: int|
            0 <= a < b < next.0.len() implies next.0[a].text != next.0[b].text by {
            if f >= 0 {
                assert(next.0[a] == if a == f {
                    next.0[f]
                } else {
                    d[a]
                });
                assert(next.0[f].text == d[f].text);
            } else {
                if b == d.len() {
                    assert(next.0[a] == d[a]);
                    assert(next.0[b].text == text);
                }
            }
        }
        lemma_agg_tags_texts(next.0, next.1, ts, tags, j + 1);
    }
}

proof fn lemma_agg_posts_texts(s: Seq<StoredPost>, i: int, d: Seq<DictEntryV>, o: Seq<GPUHashtagV>)
    requires
        texts_unique(d),
    ensures
        texts_unique(agg_posts(s, i, d, o).0),
    decreases s.len() - i,
{
    if 0 <= i < s.len() {
        let next = agg_tags(d, o, post_ts(s[i]), post_tags(s[i]), 0);
        lemma_agg_tags_texts(d, o, post_ts(s[i]), post_tags(s[i]), 0);
        lemma_agg_posts_texts(s, i + 1, next.0, next.1);
    }
}

/// Each tag text occurs at most once in the completed dictionary, so the
/// entry a lookup finds for a text is that text's one entry.
pub proof fn lemma_dict_texts_unique(s: Seq<StoredPost>)
    ensures
        texts_unique(dict_of(s)),
{
    lemma_agg_posts_texts(s, 0, Seq::<DictEntryV>::empty(), Seq::<GPUHashtagV>::empty());
}

/// Hashtag identifiers are assigned in strict first-seen order and never
/// reused: entry `k` of the completed dictionary holds identifier `k + 1`,
/// so identifiers are strictly increasing across the dictionary, duplicate
/// tags notwithstanding.
pub proof fn lemma_dict_ids_first_seen(s: Seq<StoredPost>)
    requires
        tag_total_from(s, 0) <= u64::MAX,
    ensures
        forall|k: int| 0 <= k < dict_of(s).len() ==> #[trigger] dict_of(s)[k].id == k + 1,
        forall|j: int, k: int|
            0 <= j < k < dict_of(s).len() ==> dict_of(s)[j].id < dict_of(s)[k].id,
{
    lemma_agg_posts_ids(s, 0, Seq::<DictEntryV>::empty(), Seq::<GPUHashtagV>::empty());
    assert forall|j: int, k: int|
        0 <= j < k < dict_of(s).len() implies dict_of(s)[j].id < dict_of(s)[k].id by {
        assert(dict_of(s)[j].id == j + 1);
        assert(dict_of(s)[k].id == k + 1);
    }
}

} // verus!
