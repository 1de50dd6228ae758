//! The post store: an in-memory mapping from decoded post identifier to
//! scored post record, built by one pass over the input rows. Later rows
//! with a colliding identifier replace earlier ones in place, so iteration
//! order is the stable first-seen order of the identifiers.

use vstd::prelude::*;
use crate::decode::parses_as_i64;
use crate::decode::i64_literal_value;
use crate::decode::try_parse_i64;
use crate::rows::PipelineError;
use crate::rows::ScoredPost;
use crate::rows::StoredPost;

verus! {

/// The in-memory post store. The vector order is the first-seen order of
/// the post identifiers; each identifier occurs exactly once.
#[derive(Debug)]
pub struct PostStore {
    pub posts: Vec<StoredPost>,
}

impl PostStore {
    /// Well-formedness: post identifiers are unique.
    pub open spec fn wf(self) -> bool {
        forall|i: int, j: int|
            0 <= i < j < self.posts@.len() ==> self.posts@[i].id != self.posts@[j].id
    }
}

/// Index of the first stored post holding `id`, or -1 where none does.
pub open spec fn find_index(s: Seq<StoredPost>, id: i64) -> int
    decreases s.len(),
{
    if s.len() == 0 {
        -1
    } else if s[0].id == id {
        0
    } else {
        let r = find_index(s.drop_first(), id);
        if r == -1 {
            -1
        } else {
            r + 1
        }
    }
}

/// `find_index` returns the first matching index, and -1 exactly where no
/// stored post holds `id`.
pub proof fn lemma_find_index(s: Seq<StoredPost>, id: i64)
    ensures
        -1 <= find_index(s, id) < s.len(),
        find_index(s, id) >= 0 ==> s[find_index(s, id)].id == id,
        find_index(s, id) >= 0 ==> forall|k: int|
            0 <= k < find_index(s, id) ==> #[trigger] s[k].id != id,
        find_index(s, id) == -1 ==> forall|k: int| 0 <= k < s.len() ==> #[trigger] s[k].id != id,
    decreases s.len(),
{
    if s.len() == 0 {
    } else if s[0].id == id {
    } else {
        let t = s.drop_first();
        lemma_find_index(t, id);
        let rt = find_index(t, id);
        if rt == -1 {
            assert forall|k: int| 0 <= k < s.len() implies #[trigger] s[k].id != id by {
                if k > 0 {
                    assert(t[k - 1] == s[k]);
                }
            }
        } else {
            assert(s[rt + 1] == t[rt]);
            assert forall|k: int| 0 <= k < rt + 1 implies #[trigger] s[k].id != id by {
                if k > 0 {
                    assert(t[k - 1] == s[k]);
                }
            }
        }
    }
}

/// Insert-or-replace: a colliding identifier replaces the stored post in
/// place; a fresh identifier is appended.
pub open spec fn upsert(s: Seq<StoredPost>, id: i64, p: ScoredPost) -> Seq<StoredPost> {
    let r = find_index(s, id);
    if r >= 0 {
        s.update(r, StoredPost { id, post: p })
    } else {
        s.push(StoredPost { id, post: p })
    }
}

/// The store that one pass over `rows` builds, or `None` where some row's
/// identifier is not a well-formed integer (a fatal condition).
pub open spec fn store_of(rows: Seq<ScoredPost>) -> Option<Seq<StoredPost>>
    decreases rows.len(),
{
    if rows.len() == 0 {
        Some(Seq::<StoredPost>::empty())
    } else {
        match store_of(rows.drop_last()) {
            Option::None => Option::None,
            Option::Some(s) => {
                let t = rows.last().tweet.tweetid@;
                if parses_as_i64(t) {
                    Some(upsert(s, i64_literal_value(t) as i64, rows.last()))
                } else {
                    Option::None
                }
            },
        }
    }
}

/// A successfully built store has unique identifiers.
pub proof fn lemma_store_of_unique(rows: Seq<ScoredPost>, s: Seq<StoredPost>)
    requires
        store_of(rows) == Some(s),
    ensures
        forall|i: int, j: int| 0 <= i < j < s.len() ==> s[i].id != s[j].id,
    decreases rows.len(),
{
    if rows.len() > 0 {
        match store_of(rows.drop_last()) {
            Option::Some(prev) => {
                lemma_store_of_unique(rows.drop_last(), prev);
                let t = rows.last().tweet.tweetid@;
                let id = i64_literal_value(t) as i64;
                lemma_find_index(prev, id);
            },
            Option::None => {
                assert(false);
            },
        }
    }
}

/// One unparsable identifier anywhere in the input makes the build fail.
pub proof fn lemma_store_of_prefix_none(rows: Seq<ScoredPost>, k: int)
    requires
        0 <= k < rows.len(),
        !parses_as_i64(rows[k].tweet.tweetid@),
    ensures
        store_of(rows) is None,
    decreases rows.len(),
{
    if k < rows.len() - 1 {
        lemma_store_of_prefix_none(rows.drop_last(), k);
    }
}

/// Linear lookup: the index of the first stored post holding `id`.
pub fn find_post_index(posts: &Vec<StoredPost>, id: i64) -> (r: Option<usize>)
    ensures
        r matches Some(j) ==> find_index(posts@, id) == j as int && j < posts@.len(),
        r is None ==> find_index(posts@, id) == -1,
{
    let mut i: usize = 0;
    while i < posts.len()
        invariant
            0 <= i <= posts@.len(),
            forall|k: int| 0 <= k < i ==> #[trigger] posts@[k].id != id,
        decreases posts@.len() - i,
    {
        if posts[i].id == id {
            proof {
                lemma_find_index(posts@, id);
            }
            return Some(i);
        }
        i += 1;
    }
    proof {
        lemma_find_index(posts@, id);
    }
    None
}

/// Build the store: one pass, identifiers parsed strictly, later rows with
/// a colliding identifier silently replacing earlier ones.
#[verifier::loop_isolation(false)]
pub fn build_store(rows: Vec<ScoredPost>) -> (r: Result<PostStore, PipelineError>)
    ensures
        r matches Ok(store) ==> store_of(rows@) == Some(store.posts@) && store.wf(),
        r matches Err(e) ==> store_of(rows@) is None && e == PipelineError::InvalidPostId,
{
    let ghost rows_v = rows@;
    let mut remaining = rows;
    let mut store = PostStore { posts: Vec::new() };
    let ghost k: int = 0;
    proof {
        assert(rows_v.take(0) =~= Seq::<ScoredPost>::empty());
        assert(remaining@ =~= rows_v.skip(0));
    }
    while remaining.len() > 0
        invariant
            0 <= k <= rows_v.len(),
            remaining@ =~= rows_v.skip(k),
            store_of(rows_v.take(k)) == Some(store.posts@),
        decreases remaining@.len(),
    {
        let sp = remaining.remove(0);
        proof {
            assert(rows_v.skip(k)[0] == rows_v[k]);
            assert(sp == rows_v[k]);
            assert(remaining@ =~= rows_v.skip(k + 1));
        }
        let parsed = try_parse_i64(&sp.tweet.tweetid);
        match parsed {
            Option::None => {
                proof {
                    lemma_store_of_prefix_none(rows_v, k);
                }
                return Err(PipelineError::InvalidPostId);
            },
            Option::Some(id) => {
                let ghost old_posts = store.posts@;
                let found = find_post_index(&store.posts, id);
                match found {
                    Option::Some(j) => {
                        store.posts.remove(j);
                        store.posts.insert(j, StoredPost { id, post: sp });
                        proof {
                            assert(store.posts@ =~= old_posts.update(
                                j as int,
                                StoredPost { id, post: sp },
                            ));
                        }
                    },
                    Option::None => {
                        store.posts.push(StoredPost { id, post: sp });
                    },
                }
                proof {
                    assert(store.posts@ == upsert(old_posts, id, sp));
                    assert(rows_v.take(k + 1).drop_last() =~= rows_v.take(k));
                    assert(rows_v.take(k + 1).last() == rows_v[k]);
                    k = k + 1;
                }
            },
        }
    }
    proof {
        assert(k == rows_v.len());
        assert(rows_v.take(k) =~= rows_v);
        assert(store_of(rows_v) == Some(store.posts@));
        lemma_store_of_unique(rows_v, store.posts@);
        assert(store.wf());
    }
    Ok(store)
}

} // verus!
