//! Message rotation for the random pokes of a day: categories and messages are
//! picked least-recently-used first, unseen messages first, and without
//! back-to-back repeats where an alternative exists.

use vstd::prelude::*;

use crate::config::MessageTemplate;
use crate::rng::choose_index;
use crate::state::RecentMessage;

verus! {

/// How far from the end of `h` the last entry satisfying `p` stands
/// (0 for the newest entry), or `usize::MAX` when no entry does.
pub open spec fn recency(h: Seq<RecentMessage>, p: spec_fn(RecentMessage) -> bool) -> int
    decreases h.len(),
{
    if h.len() == 0 {
        usize::MAX as int
    } else if p(h.last()) {
        0
    } else {
        let r = recency(h.drop_last(), p);
        if r == usize::MAX as int {
            r
        } else {
            r + 1
        }
    }
}

/// History entries of the given category.
pub open spec fn in_category(category: Seq<char>) -> spec_fn(RecentMessage) -> bool {
    |e: RecentMessage| e.category@ == category
}

/// History entries that record the given message.
pub open spec fn is_message(text: Seq<char>, category: Seq<char>) -> spec_fn(
    RecentMessage,
) -> bool {
    |e: RecentMessage| e.message@ == text && e.category@ == category
}

/// A history entry records this message: same text and same category.
pub open spec fn same_message(m: MessageTemplate, e: RecentMessage) -> bool {
    m.text@ == e.message@ && m.category@ == e.category@
}

proof fn lemma_recency_found(h: Seq<RecentMessage>, p: spec_fn(RecentMessage) -> bool, k: int)
    requires
        0 <= k < h.len() <= usize::MAX,
        forall|j: int| 0 <= j < k ==> !p(#[trigger] h[h.len() - 1 - j]),
        p(h[h.len() - 1 - k]),
    ensures
        recency(h, p) == k,
    decreases k,
{
    if k > 0 {
        let t = h.drop_last();
        assert(!p(h[h.len() - 1 - 0]));
        assert forall|j: int| 0 <= j < k - 1 implies !p(#[trigger] t[t.len() - 1 - j]) by {
            assert(t[t.len() - 1 - j] == h[h.len() - 1 - (j + 1)]);
        }
        assert(t[t.len() - 1 - (k - 1)] == h[h.len() - 1 - k]);
        lemma_recency_found(t, p, k - 1);
    }
}

proof fn lemma_recency_absent(h: Seq<RecentMessage>, p: spec_fn(RecentMessage) -> bool)
    requires
        forall|j: int| 0 <= j < h.len() ==> !p(#[trigger] h[j]),
    ensures
        recency(h, p) == usize::MAX as int,
    decreases h.len(),
{
    if h.len() > 0 {
        let t = h.drop_last();
        assert(!p(h[h.len() - 1]));
        assert forall|j: int| 0 <= j < t.len() implies !p(#[trigger] t[j]) by {
            assert(t[j] == h[j]);
        }
        lemma_recency_absent(t, p);
    }
}

/// Recency of a category in the history.
fn category_recency(history: &Vec<RecentMessage>, category: &String) -> (r: usize)
    ensures
        r == recency(history@, in_category(category@)),
{
    let len = history.len();
    let ghost p = in_category(category@);
    let mut k: usize = 0;
    while k < len
        invariant
            k <= len,
            len == history@.len(),
            p == in_category(category@),
            forall|j: int| 0 <= j < k ==> !p(#[trigger] history@[len - 1 - j]),
        decreases len - k,
    {
        if history[len - 1 - k].category == *category {
            proof {
                lemma_recency_found(history@, p, k as int);
            }
            return k;
        }
        k += 1;
    }
    proof {
        assert forall|j: int| 0 <= j < history@.len() implies !p(#[trigger] history@[j]) by {
            assert(history@[j] == history@[len - 1 - (len - 1 - j)]);
        }
        lemma_recency_absent(history@, p);
    }
    usize::MAX
}

/// Whether a history entry records this message.
fn matches_recent_message(message: &MessageTemplate, recent: &RecentMessage) -> (r: bool)
    ensures
        r == same_message(*message, *recent),
{
    message.text == recent.message && message.category == recent.category
}

/// Recency of a message in the history.
fn message_recency(history: &Vec<RecentMessage>, message: &MessageTemplate) -> (r: usize)
    ensures
        r == recency(history@, is_message(message.text@, message.category@)),
{
    let len = history.len();
    let ghost p = is_message(message.text@, message.category@);
    let mut k: usize = 0;
    while k < len
        invariant
            k <= len,
            len == history@.len(),
            p == is_message(message.text@, message.category@),
            forall|j: int| 0 <= j < k ==> !p(#[trigger] history@[len - 1 - j]),
        decreases len - k,
    {
        if matches_recent_message(message, &history[len - 1 - k]) {
            proof {
                lemma_recency_found(history@, p, k as int);
            }
            return k;
        }
        k += 1;
    }
    proof {
        assert forall|j: int| 0 <= j < history@.len() implies !p(#[trigger] history@[j]) by {
            assert(history@[j] == history@[len - 1 - (len - 1 - j)]);
        }
        lemma_recency_absent(history@, p);
    }
    usize::MAX
}

/// Picks, at random, one of the candidates whose score is the largest, that
/// is, one of the least recently used.
fn choose_least_recently_used(
    candidates: &Vec<usize>,
    scores: &Vec<usize>,
    rng: &mut rand::rngs::StdRng,
) -> (r: usize)
    requires
        candidates@.len() > 0,
        scores@.len() == candidates@.len(),
    ensures
        exists|k: int|
            0 <= k < candidates@.len() && candidates@[k] == r && forall|j: int|
                0 <= j < scores@.len() ==> #[trigger] scores@[j] <= scores@[k],
{
    let n = candidates.len();
    let mut best: usize = scores[0];
    let mut i: usize = 1;
    while i < n
        invariant
            1 <= i <= n,
            n == candidates@.len(),
            n == scores@.len(),
            exists|k: int| 0 <= k < i && scores@[k] == best,
            forall|j: int| 0 <= j < i ==> #[trigger] scores@[j] <= best,
        decreases n - i,
    {
        if scores[i] > best {
            best = scores[i];
        }
        i += 1;
    }
    let mut positions: Vec<usize> = Vec::new();
    let mut i: usize = 0;
    while i < n
        invariant
            i <= n,
            n == candidates@.len(),
            n == scores@.len(),
            exists|k: int| 0 <= k < n && scores@[k] == best,
            forall|j: int| 0 <= j < n ==> #[trigger] scores@[j] <= best,
            forall|t: int| 0 <= t < positions@.len() ==> positions@[t] < n && scores@[positions@[t] as int] == best,
            (exists|k: int| 0 <= k < i && scores@[k] == best) ==> positions@.len() > 0,
        decreases n - i,
    {
        if scores[i] == best {
            positions.push(i);
        }
        i += 1;
    }
    let picked = choose_index(rng, &positions);
    let p = picked.unwrap();
    let ghost t = choose|t: int| 0 <= t < positions@.len() && positions@[t] == p;
    assert(scores@[p as int] == best);
    candidates[p]
}

/// The categories of the random pool: their distinct names in order of first
/// appearance, and for each message the position of its category.
pub struct CategoryIndex {
    pub names: Vec<String>,
    pub of_message: Vec<usize>,
}

impl CategoryIndex {
    /// Each message points at the one name equal to its category, and every
    /// name is the category of some message.
    pub open spec fn wf(&self, msgs: Seq<MessageTemplate>) -> bool {
        &&& self.of_message@.len() == msgs.len()
        &&& forall|i: int| 0 <= i < msgs.len() ==> #[trigger] self.of_message@[i] < self.names@.len()
        &&& forall|i: int, c: int|
            0 <= i < msgs.len() && 0 <= c < self.names@.len() ==> ((#[trigger] self.of_message@[i]
                == c) <==> msgs[i].category@ == (#[trigger] self.names@[c])@)
        &&& forall|c: usize| c < self.names@.len() ==> #[trigger] self.of_message@.contains(c)
    }
}

proof fn lemma_index_wf(idx: &CategoryIndex, msgs: Seq<MessageTemplate>, first: Seq<int>)
    requires
        idx.of_message@.len() == msgs.len(),
        forall|i: int| 0 <= i < msgs.len() ==> #[trigger] idx.of_message@[i] < idx.names@.len(),
        forall|i: int, c: int|
            0 <= i < msgs.len() && 0 <= c < idx.names@.len() ==> ((#[trigger] idx.of_message@[i]
                == c) <==> msgs[i].category@ == (#[trigger] idx.names@[c])@),
        first.len() == idx.names@.len(),
        forall|c: int|
            0 <= c < idx.names@.len() ==> 0 <= #[trigger] first[c] < msgs.len()
                && idx.of_message@[first[c]] == c,
    ensures
        idx.wf(msgs),
{
    assert forall|c: usize| c < idx.names@.len() implies #[trigger] idx.of_message@.contains(c) by {
        assert(idx.of_message@[first[c as int]] == c);
    }
}

fn find_name(names: &Vec<String>, name: &String) -> (r: Option<usize>)
    ensures
        r matches Some(c) ==> c < names@.len() && names@[c as int]@ == name@,
        r is None ==> forall|c: int| 0 <= c < names@.len() ==> (#[trigger] names@[c])@ != name@,
{
    let mut c: usize = 0;
    while c < names.len()
        invariant
            c <= names@.len(),
            forall|d: int| 0 <= d < c ==> (#[trigger] names@[d])@ != name@,
        decreases names@.len() - c,
    {
        if names[c] == *name {
            return Some(c);
        }
        c += 1;
    }
    None
}

/// Groups the random pool by category.
pub fn category_members(messages: &Vec<MessageTemplate>) -> (r: CategoryIndex)
    ensures
        r.wf(messages@),
{
    let mut names: Vec<String> = Vec::new();
    let mut of_message: Vec<usize> = Vec::new();
    let ghost mut first: Seq<int> = Seq::empty();
    let n = messages.len();
    let mut i: usize = 0;
    while i < n
        invariant
            i <= n,
            n == messages@.len(),
            of_message@.len() == i,
            forall|j: int| 0 <= j < i ==> #[trigger] of_message@[j] < names@.len(),
            forall|j: int, c: int|
                0 <= j < i && 0 <= c < names@.len() ==> ((#[trigger] of_message@[j] == c)
                    <==> messages@[j].category@ == (#[trigger] names@[c])@),
            first.len() == names@.len(),
            forall|c: int|
                0 <= c < names@.len() ==> 0 <= #[trigger] first[c] < i && of_message@[first[c]] == c,
        decreases n - i,
    {
        let ghost old_of = of_message@;
        let ghost old_names = names@;
        let found = find_name(&names, &messages[i].category);
        match found {
            Some(c) => {
                of_message.push(c);
                assert forall|j: int, d: int|
                    0 <= j < i + 1 && 0 <= d < names@.len() implies ((#[trigger] of_message@[j] == d)
                    <==> messages@[j].category@ == (#[trigger] names@[d])@) by {
                    if j == i {
                        if messages@[j].category@ == names@[d]@ && d != c {
                            assert(old_names[d] == names@[d]);
                            assert(old_of[first[d]] == d);
                        }
                    } else {
                        assert(old_of[j] == of_message@[j]);
                    }
                }
            },
            None => {
                let c = names.len();
                names.push(messages[i].category.clone());
                of_message.push(c);
                assert forall|j: int, d: int|
                    0 <= j < i + 1 && 0 <= d < names@.len() implies ((#[trigger] of_message@[j] == d)
                    <==> messages@[j].category@ == (#[trigger] names@[d])@) by {
                    if j < i {
                        assert(old_of[j] == of_message@[j]);
                        if d == c {
                            assert(old_of[j] < c);
                            assert(old_names[old_of[j] as int]@ == messages@[j].category@);
                        } else {
                            assert(old_names[d] == names@[d]);
                        }
                    } else if d != c {
                        assert(old_names[d] == names@[d]);
                    }
                }
                proof {
                    first = first.push(i as int);
                }
            },
        }
        i += 1;
    }
    let r = CategoryIndex { names, of_message };
    proof {
        lemma_index_wf(&r, messages@, first);
    }
    r
}

} // verus!

verus! {

/// Category `c` still has a message that has not been picked today.
pub open spec fn has_unseen(of_message: Seq<usize>, unseen: Seq<bool>, c: int) -> bool {
    exists|i: int| 0 <= i < of_message.len() && of_message[i] == c && #[trigger] unseen[i]
}

/// Some message of the pool has not been picked today yet, and the slots
/// left can still take every one of them, so this slot must take one: on a
/// day with at least as many slots as messages, every message is picked
/// before any repeats.
pub open spec fn forced_unseen(remaining_slots: int, remaining_unseen: int) -> bool {
    remaining_unseen > 0 && remaining_slots >= remaining_unseen
}

/// First category filter: when forced, only categories that still have an
/// unpicked message.
pub open spec fn cat_step1(idx: CategoryIndex, unseen: Seq<bool>, forced: bool, c: int) -> bool {
    0 <= c < idx.names@.len() && (forced ==> has_unseen(idx.of_message@, unseen, c))
}

/// Second category filter: not the category of the last send, when some
/// category of the first filter differs from it.
pub open spec fn cat_step2(
    idx: CategoryIndex,
    unseen: Seq<bool>,
    forced: bool,
    h: Seq<RecentMessage>,
    c: int,
) -> bool {
    &&& cat_step1(idx, unseen, forced, c)
    &&& (h.len() > 0 && (exists|d: int|
        #[trigger] cat_step1(idx, unseen, forced, d) && idx.names@[d]@ != h.last().category@))
        ==> idx.names@[c]@ != h.last().category@
}

/// Third category filter: categories with unseen messages, when the second
/// filter left any.
pub open spec fn cat_step3(
    idx: CategoryIndex,
    unseen: Seq<bool>,
    forced: bool,
    h: Seq<RecentMessage>,
    c: int,
) -> bool {
    &&& cat_step2(idx, unseen, forced, h, c)
    &&& (exists|d: int|
        #[trigger] cat_step2(idx, unseen, forced, h, d) && has_unseen(idx.of_message@, unseen, d))
        ==> has_unseen(idx.of_message@, unseen, c)
}

/// Recency of category `c` in the history.
pub open spec fn cat_score(idx: CategoryIndex, h: Seq<RecentMessage>, c: int) -> int {
    recency(h, in_category(idx.names@[c]@))
}

/// Whether category `c` still has an unseen message.
fn category_has_unseen(index: &CategoryIndex, c: usize, unseen: &Vec<bool>) -> (r: bool)
    requires
        unseen@.len() == index.of_message@.len(),
    ensures
        r == has_unseen(index.of_message@, unseen@, c as int),
{
    let n = index.of_message.len();
    let mut i: usize = 0;
    while i < n
        invariant
            i <= n,
            n == index.of_message@.len(),
            unseen@.len() == n,
            forall|j: int| 0 <= j < i ==> !(index.of_message@[j] == c && #[trigger] unseen@[j]),
        decreases n - i,
    {
        if index.of_message[i] == c && unseen[i] {
            return true;
        }
        i += 1;
    }
    false
}

/// Chooses the category of the next random poke: the
/// three filters in turn, then one of the least recently used that remain.
fn select_category(
    index: &CategoryIndex,
    unseen: &Vec<bool>,
    history: &Vec<RecentMessage>,
    remaining_slots: usize,
    remaining_unseen: usize,
    rng: &mut rand::rngs::StdRng,
) -> (r: usize)
    requires
        index.names@.len() > 0,
        unseen@.len() == index.of_message@.len(),
        forall|i: int|
            0 <= i < index.of_message@.len() ==> #[trigger] index.of_message@[i]
                < index.names@.len(),
        remaining_unseen > 0 ==> exists|i: int| 0 <= i < unseen@.len() && #[trigger] unseen@[i],
    ensures
        r < index.names@.len(),
        cat_step3(
            *index,
            unseen@,
            forced_unseen(remaining_slots as int, remaining_unseen as int),
            history@,
            r as int,
        ),
        forall|d: int|
            #[trigger] cat_step3(
                *index,
                unseen@,
                forced_unseen(remaining_slots as int, remaining_unseen as int),
                history@,
                d,
            ) ==> cat_score(*index, history@, d) <= cat_score(*index, history@, r as int),
{
    let n = index.names.len();
    let forced = remaining_unseen > 0 && remaining_slots >= remaining_unseen;
    let ghost idx = *index;
    let ghost h = history@;
    // Whether each category still has unseen messages.
    let mut unseen_in: Vec<bool> = Vec::new();
    let mut c: usize = 0;
    while c < n
        invariant
            c <= n,
            idx == *index,
            h == history@,
            n == index.names@.len(),
            unseen@.len() == index.of_message@.len(),
            unseen_in@.len() == c,
            forall|d: int|
                0 <= d < c ==> #[trigger] unseen_in@[d] == has_unseen(
                    index.of_message@,
                    unseen@,
                    d,
                ),
        decreases n - c,
    {
        unseen_in.push(category_has_unseen(index, c, unseen));
        c += 1;
    }
    // First filter.
    let mut mask: Vec<bool> = Vec::new();
    let mut c: usize = 0;
    while c < n
        invariant
            c <= n,
            idx == *index,
            h == history@,
            n == index.names@.len(),
            unseen_in@.len() == n,
            forall|d: int|
                0 <= d < n ==> #[trigger] unseen_in@[d] == has_unseen(
                    index.of_message@,
                    unseen@,
                    d,
                ),
            mask@.len() == c,
            forall|d: int|
                0 <= d < c ==> #[trigger] mask@[d] == cat_step1(idx, unseen@, forced, d),
        decreases n - c,
    {
        mask.push(!forced || unseen_in[c]);
        c += 1;
    }
    // Second filter.
    if history.len() > 0 {
        let last = &history[history.len() - 1].category;
        let mut other = false;
        let mut c: usize = 0;
        while c < n
            invariant
                c <= n,
                idx == *index,
                h == history@,
                n == index.names@.len(),
                mask@.len() == n,
                history@.len() > 0,
                *last == history@.last().category,
                forall|d: int|
                    0 <= d < n ==> #[trigger] mask@[d] == cat_step1(idx, unseen@, forced, d),
                other == exists|d: int|
                    0 <= d < c && #[trigger] cat_step1(idx, unseen@, forced, d)
                        && idx.names@[d]@ != h.last().category@,
            decreases n - c,
        {
            if mask[c] && index.names[c] != *last {
                assert(cat_step1(idx, unseen@, forced, c as int));
                other = true;
            }
            c += 1;
        }
        if other {
            let mut c: usize = 0;
            while c < n
                invariant
                    c <= n,
                    idx == *index,
                    h == history@,
                    n == index.names@.len(),
                    mask@.len() == n,
                    history@.len() > 0,
                    *last == history@.last().category,
                    exists|d: int|
                        #[trigger] cat_step1(idx, unseen@, forced, d) && idx.names@[d]@
                            != h.last().category@,
                    forall|d: int|
                        0 <= d < c ==> #[trigger] mask@[d] == cat_step2(
                            idx,
                            unseen@,
                            forced,
                            h,
                            d,
                        ),
                    forall|d: int|
                        c <= d < n ==> #[trigger] mask@[d] == cat_step1(idx, unseen@, forced, d),
                decreases n - c,
            {
                if index.names[c] == *last {
                    mask.set(c, false);
                }
                c += 1;
            }
        }
    }
    assert forall|d: int| 0 <= d < n implies #[trigger] mask@[d] == cat_step2(
        idx,
        unseen@,
        forced,
        h,
        d,
    ) by {}
    // Third filter.
    let mut any_unseen = false;
    let mut c: usize = 0;
    while c < n
        invariant
            c <= n,
            idx == *index,
            h == history@,
            n == index.names@.len(),
            mask@.len() == n,
            unseen_in@.len() == n,
            forall|d: int|
                0 <= d < n ==> #[trigger] unseen_in@[d] == has_unseen(
                    index.of_message@,
                    unseen@,
                    d,
                ),
            forall|d: int|
                0 <= d < n ==> #[trigger] mask@[d] == cat_step2(idx, unseen@, forced, h, d),
            any_unseen == exists|d: int|
                0 <= d < c && #[trigger] cat_step2(idx, unseen@, forced, h, d) && has_unseen(
                    idx.of_message@,
                    unseen@,
                    d,
                ),
        decreases n - c,
    {
        if mask[c] && unseen_in[c] {
            assert(cat_step2(idx, unseen@, forced, h, c as int));
            any_unseen = true;
        }
        c += 1;
    }
    let mut candidates: Vec<usize> = Vec::new();
    let mut scores: Vec<usize> = Vec::new();
    let mut c: usize = 0;
    while c < n
        invariant
            c <= n,
            idx == *index,
            h == history@,
            n == index.names@.len(),
            mask@.len() == n,
            unseen_in@.len() == n,
            history@ == h,
            forall|d: int|
                0 <= d < n ==> #[trigger] unseen_in@[d] == has_unseen(
                    index.of_message@,
                    unseen@,
                    d,
                ),
            forall|d: int|
                0 <= d < n ==> #[trigger] mask@[d] == cat_step2(idx, unseen@, forced, h, d),
            any_unseen == exists|d: int|
                0 <= d < n && #[trigger] cat_step2(idx, unseen@, forced, h, d) && has_unseen(
                    idx.of_message@,
                    unseen@,
                    d,
                ),
            scores@.len() == candidates@.len(),
            forall|k: int|
                0 <= k < candidates@.len() ==> #[trigger] candidates@[k] < n && cat_step3(
                    idx,
                    unseen@,
                    forced,
                    h,
                    candidates@[k] as int,
                ) && scores@[k] == cat_score(idx, h, candidates@[k] as int),
            forall|d: int|
                0 <= d < c && cat_step3(idx, unseen@, forced, h, d) ==> exists|k: int|
                    0 <= k < candidates@.len() && #[trigger] candidates@[k] == d,
        decreases n - c,
    {
        let ghost old_candidates = candidates@;
        if mask[c] && (!any_unseen || unseen_in[c]) {
            let score = category_recency(history, &index.names[c]);
            candidates.push(c);
            scores.push(score);
            assert(candidates@[candidates@.len() - 1] == c);
        }
        assert forall|d: int|
            0 <= d < c + 1 && cat_step3(idx, unseen@, forced, h, d) implies exists|k: int|
                0 <= k < candidates@.len() && #[trigger] candidates@[k] == d by {
            if d < c {
                let k = choose|k: int| 0 <= k < old_candidates.len() && #[trigger] old_candidates[k] == d;
                assert(candidates@[k] == old_candidates[k]);
            } else {
                assert(candidates@[candidates@.len() - 1] == c);
            }
        }
        c += 1;
    }
    proof {
        lemma_category_filters_nonempty(idx, unseen@, forced, h);
    }
    let ghost d0 = choose|d: int| cat_step3(idx, unseen@, forced, h, d);
    assert(exists|k: int| 0 <= k < candidates@.len() && #[trigger] candidates@[k] == d0);
    let r = choose_least_recently_used(&candidates, &scores, rng);
    assert forall|d: int| #[trigger] cat_step3(idx, unseen@, forced, h, d) implies cat_score(
        idx,
        h,
        d,
    ) <= cat_score(idx, h, r as int) by {
        let k = choose|k: int| 0 <= k < candidates@.len() && #[trigger] candidates@[k] == d;
        assert(scores@[k] == cat_score(idx, h, d));
    }
    r
}

/// The three category filters never leave the candidates empty.
proof fn lemma_category_filters_nonempty(
    idx: CategoryIndex,
    unseen: Seq<bool>,
    forced: bool,
    h: Seq<RecentMessage>,
)
    requires
        idx.names@.len() > 0,
        unseen.len() == idx.of_message@.len(),
        forall|i: int|
            0 <= i < idx.of_message@.len() ==> #[trigger] idx.of_message@[i] < idx.names@.len(),
        forced ==> exists|i: int| 0 <= i < unseen.len() && #[trigger] unseen[i],
    ensures
        exists|d: int| #[trigger] cat_step3(idx, unseen, forced, h, d),
{
    let d1 = if forced {
        let i = choose|i: int| 0 <= i < unseen.len() && #[trigger] unseen[i];
        let c = idx.of_message@[i] as int;
        assert(has_unseen(idx.of_message@, unseen, c));
        c
    } else {
        0
    };
    assert(cat_step1(idx, unseen, forced, d1));
    let d2 = if h.len() > 0 && (exists|d: int|
        #[trigger] cat_step1(idx, unseen, forced, d) && idx.names@[d]@ != h.last().category@) {
        choose|d: int|
            #[trigger] cat_step1(idx, unseen, forced, d) && idx.names@[d]@ != h.last().category@
    } else {
        d1
    };
    assert(cat_step2(idx, unseen, forced, h, d2));
    let d3 = if exists|d: int|
        #[trigger] cat_step2(idx, unseen, forced, h, d) && has_unseen(idx.of_message@, unseen, d) {
        choose|d: int|
            #[trigger] cat_step2(idx, unseen, forced, h, d) && has_unseen(idx.of_message@, unseen, d)
    } else {
        d2
    };
    assert(cat_step3(idx, unseen, forced, h, d3));
}

/// Members of category `cat`.
pub open spec fn msg_step0(of_message: Seq<usize>, cat: int, i: int) -> bool {
    0 <= i < of_message.len() && of_message[i] == cat
}

/// First message filter: the unseen members, when the category has any.
pub open spec fn msg_step1(of_message: Seq<usize>, unseen: Seq<bool>, cat: int, i: int) -> bool {
    &&& msg_step0(of_message, cat, i)
    &&& (exists|j: int| #[trigger] msg_step0(of_message, cat, j) && unseen[j]) ==> unseen[i]
}

/// Second message filter: not the message of the last send, when some
/// candidate of the first filter differs from it.
pub open spec fn msg_step2(
    msgs: Seq<MessageTemplate>,
    of_message: Seq<usize>,
    unseen: Seq<bool>,
    cat: int,
    h: Seq<RecentMessage>,
    i: int,
) -> bool {
    &&& msg_step1(of_message, unseen, cat, i)
    &&& (h.len() > 0 && (exists|j: int|
        #[trigger] msg_step1(of_message, unseen, cat, j) && !same_message(msgs[j], h.last())))
        ==> !same_message(msgs[i], h.last())
}

/// Recency of message `i` in the history.
pub open spec fn msg_score(msgs: Seq<MessageTemplate>, h: Seq<RecentMessage>, i: int) -> int {
    recency(h, is_message(msgs[i].text@, msgs[i].category@))
}

/// Chooses the message of the next random poke within `category`: unseen
/// first, not the last message where possible, then one of the least
/// recently used.
fn select_message_index(
    messages: &Vec<MessageTemplate>,
    index: &CategoryIndex,
    category: usize,
    unseen: &Vec<bool>,
    history: &Vec<RecentMessage>,
    rng: &mut rand::rngs::StdRng,
) -> (r: usize)
    requires
        index.of_message@.len() == messages@.len(),
        unseen@.len() == messages@.len(),
        index.of_message@.contains(category),
    ensures
        r < messages@.len(),
        msg_step2(messages@, index.of_message@, unseen@, category as int, history@, r as int),
        forall|j: int|
            #[trigger] msg_step2(messages@, index.of_message@, unseen@, category as int, history@, j)
                ==> msg_score(messages@, history@, j) <= msg_score(messages@, history@, r as int),
{
    let n = messages.len();
    let ghost of = index.of_message@;
    let ghost cat = category as int;
    let ghost h = history@;
    let ghost msgs = messages@;
    // Whether the category has unseen members.
    let mut any_unseen = false;
    let mut i: usize = 0;
    while i < n
        invariant
            i <= n,
            n == msgs.len(),
            of == index.of_message@,
            of.len() == n,
            unseen@.len() == n,
            cat == category as int,
            any_unseen == exists|j: int| 0 <= j < i && #[trigger] msg_step0(of, cat, j) && unseen@[j],
        decreases n - i,
    {
        if index.of_message[i] == category && unseen[i] {
            assert(msg_step0(of, cat, i as int));
            any_unseen = true;
        }
        i += 1;
    }
    // First filter.
    let mut mask: Vec<bool> = Vec::new();
    let mut i: usize = 0;
    while i < n
        invariant
            i <= n,
            n == msgs.len(),
            of == index.of_message@,
            of.len() == n,
            unseen@.len() == n,
            cat == category as int,
            any_unseen == exists|j: int| 0 <= j < n && #[trigger] msg_step0(of, cat, j) && unseen@[j],
            mask@.len() == i,
            forall|j: int| 0 <= j < i ==> #[trigger] mask@[j] == msg_step1(of, unseen@, cat, j),
        decreases n - i,
    {
        mask.push(index.of_message[i] == category && (!any_unseen || unseen[i]));
        i += 1;
    }
    // Second filter.
    if history.len() > 0 {
        let last = &history[history.len() - 1];
        let mut other = false;
        let mut i: usize = 0;
        while i < n
            invariant
                i <= n,
                n == msgs.len(),
                msgs == messages@,
                h == history@,
                h.len() > 0,
                *last == h.last(),
                mask@.len() == n,
                forall|j: int| 0 <= j < n ==> #[trigger] mask@[j] == msg_step1(of, unseen@, cat, j),
                other == exists|j: int|
                    0 <= j < i && #[trigger] msg_step1(of, unseen@, cat, j) && !same_message(
                        msgs[j],
                        h.last(),
                    ),
            decreases n - i,
        {
            if mask[i] && !matches_recent_message(&messages[i], last) {
                assert(msg_step1(of, unseen@, cat, i as int));
                other = true;
            }
            i += 1;
        }
        if other {
            let mut i: usize = 0;
            while i < n
                invariant
                    i <= n,
                    n == msgs.len(),
                    msgs == messages@,
                    h == history@,
                    h.len() > 0,
                    *last == h.last(),
                    mask@.len() == n,
                    exists|j: int|
                        #[trigger] msg_step1(of, unseen@, cat, j) && !same_message(msgs[j], h.last()),
                    forall|j: int|
                        0 <= j < i ==> #[trigger] mask@[j] == msg_step2(msgs, of, unseen@, cat, h, j),
                    forall|j: int| i <= j < n ==> #[trigger] mask@[j] == msg_step1(of, unseen@, cat, j),
                decreases n - i,
            {
                if matches_recent_message(&messages[i], last) {
                    mask.set(i, false);
                }
                i += 1;
            }
        }
    }
    assert forall|j: int| 0 <= j < n implies #[trigger] mask@[j] == msg_step2(
        msgs,
        of,
        unseen@,
        cat,
        h,
        j,
    ) by {}
    let mut candidates: Vec<usize> = Vec::new();
    let mut scores: Vec<usize> = Vec::new();
    let mut i: usize = 0;
    while i < n
        invariant
            i <= n,
            n == msgs.len(),
            msgs == messages@,
            h == history@,
            mask@.len() == n,
            forall|j: int| 0 <= j < n ==> #[trigger] mask@[j] == msg_step2(msgs, of, unseen@, cat, h, j),
            scores@.len() == candidates@.len(),
            forall|k: int|
                0 <= k < candidates@.len() ==> #[trigger] candidates@[k] < n && msg_step2(
                    msgs,
                    of,
                    unseen@,
                    cat,
                    h,
                    candidates@[k] as int,
                ) && scores@[k] == msg_score(msgs, h, candidates@[k] as int),
            forall|j: int|
                0 <= j < i && msg_step2(msgs, of, unseen@, cat, h, j) ==> exists|k: int|
                    0 <= k < candidates@.len() && #[trigger] candidates@[k] == j,
        decreases n - i,
    {
        let ghost old_candidates = candidates@;
        if mask[i] {
            let score = message_recency(history, &messages[i]);
            candidates.push(i);
            scores.push(score);
        }
        assert forall|j: int|
            0 <= j < i + 1 && msg_step2(msgs, of, unseen@, cat, h, j) implies exists|k: int|
                0 <= k < candidates@.len() && #[trigger] candidates@[k] == j by {
            if j < i {
                let k = choose|k: int| 0 <= k < old_candidates.len() && #[trigger] old_candidates[k] == j;
                assert(candidates@[k] == old_candidates[k]);
            } else {
                assert(candidates@[candidates@.len() - 1] == i);
            }
        }
        i += 1;
    }
    proof {
        lemma_message_filters_nonempty(msgs, of, unseen@, cat, h);
    }
    let ghost j0 = choose|j: int| msg_step2(msgs, of, unseen@, cat, h, j);
    assert(exists|k: int| 0 <= k < candidates@.len() && #[trigger] candidates@[k] == j0);
    let r = choose_least_recently_used(&candidates, &scores, rng);
    assert forall|j: int| #[trigger] msg_step2(msgs, of, unseen@, cat, h, j) implies msg_score(
        msgs,
        h,
        j,
    ) <= msg_score(msgs, h, r as int) by {
        let k = choose|k: int| 0 <= k < candidates@.len() && #[trigger] candidates@[k] == j;
        assert(scores@[k] == msg_score(msgs, h, j));
    }
    r
}

/// The two message filters never leave the candidates empty.
proof fn lemma_message_filters_nonempty(
    msgs: Seq<MessageTemplate>,
    of: Seq<usize>,
    unseen: Seq<bool>,
    cat: int,
    h: Seq<RecentMessage>,
)
    requires
        of.len() == msgs.len(),
        unseen.len() == msgs.len(),
        0 <= cat <= usize::MAX,
        of.contains(cat as usize),
    ensures
        exists|j: int| #[trigger] msg_step2(msgs, of, unseen, cat, h, j),
{
    let i0 = choose|i: int| 0 <= i < of.len() && of[i] == cat as usize;
    assert(msg_step0(of, cat, i0));
    let j1 = if exists|j: int| #[trigger] msg_step0(of, cat, j) && unseen[j] {
        choose|j: int| #[trigger] msg_step0(of, cat, j) && unseen[j]
    } else {
        i0
    };
    assert(msg_step1(of, unseen, cat, j1));
    let j2 = if h.len() > 0 && (exists|j: int|
        #[trigger] msg_step1(of, unseen, cat, j) && !same_message(msgs[j], h.last())) {
        choose|j: int| #[trigger] msg_step1(of, unseen, cat, j) && !same_message(msgs[j], h.last())
    } else {
        j1
    };
    assert(msg_step2(msgs, of, unseen, cat, h, j2));
}

/// Number of `true` entries.
pub open spec fn count_true(s: Seq<bool>) -> nat
    decreases s.len(),
{
    if s.len() == 0 {
        0
    } else {
        count_true(s.drop_last()) + if s.last() {
            1nat
        } else {
            0nat
        }
    }
}

proof fn lemma_count_true_update(s: Seq<bool>, i: int)
    requires
        0 <= i < s.len(),
    ensures
        count_true(s.update(i, false)) + (if s[i] {
            1nat
        } else {
            0nat
        }) == count_true(s),
    decreases s.len(),
{
    let t = s.update(i, false);
    if i == s.len() - 1 {
        assert(t.drop_last() =~= s.drop_last());
    } else {
        assert(t.drop_last() =~= s.drop_last().update(i, false));
        lemma_count_true_update(s.drop_last(), i);
    }
}

proof fn lemma_count_true_all(s: Seq<bool>)
    requires
        forall|i: int| 0 <= i < s.len() ==> #[trigger] s[i],
    ensures
        count_true(s) == s.len(),
    decreases s.len(),
{
    if s.len() > 0 {
        assert(s[s.len() - 1]);
        lemma_count_true_all(s.drop_last());
    }
}

proof fn lemma_count_true_zero(s: Seq<bool>)
    requires
        count_true(s) == 0,
    ensures
        forall|i: int| 0 <= i < s.len() ==> !#[trigger] s[i],
    decreases s.len(),
{
    if s.len() > 0 {
        lemma_count_true_zero(s.drop_last());
        assert forall|i: int| 0 <= i < s.len() implies !#[trigger] s[i] by {
            if i < s.len() - 1 {
                assert(s[i] == s.drop_last()[i]);
            }
        }
    }
}

proof fn lemma_count_true_positive(s: Seq<bool>)
    requires
        count_true(s) > 0,
    ensures
        exists|i: int| 0 <= i < s.len() && #[trigger] s[i],
    decreases s.len(),
{
    if !s.last() {
        lemma_count_true_positive(s.drop_last());
        let i = choose|i: int| 0 <= i < s.drop_last().len() && #[trigger] s.drop_last()[i];
        assert(s[i]);
    } else {
        assert(s[s.len() - 1]);
    }
}

fn count_unseen(unseen: &Vec<bool>) -> (r: usize)
    ensures
        r == count_true(unseen@),
{
    let mut r: usize = 0;
    let mut i: usize = 0;
    while i < unseen.len()
        invariant
            i <= unseen@.len(),
            r == count_true(unseen@.take(i as int)),
            r <= i,
        decreases unseen@.len() - i,
    {
        assert(unseen@.take(i + 1).drop_last() =~= unseen@.take(i as int));
        if unseen[i] {
            r += 1;
        }
        i += 1;
    }
    assert(unseen@.take(unseen@.len() as int) =~= unseen@);
    r
}

/// Which messages are still unpicked after the picks in `earlier`.
pub open spec fn unseen_at(n: int, earlier: Seq<usize>) -> Seq<bool> {
    Seq::new(n as nat, |i: int| !earlier.contains(i as usize))
}

/// Text and category of the send just before slot `k`: the previous pick, or
/// for the first slot the newest entry of the carried-over history.
pub open spec fn prev_sent(
    msgs: Seq<MessageTemplate>,
    recent: Seq<RecentMessage>,
    picked: Seq<usize>,
    k: int,
) -> Option<(Seq<char>, Seq<char>)> {
    if k > 0 {
        Some((msgs[picked[k - 1] as int].text@, msgs[picked[k - 1] as int].category@))
    } else if recent.len() > 0 {
        Some((recent.last().message@, recent.last().category@))
    } else {
        None
    }
}

/// Slot `k` repeats the previous category only when no other category was
/// allowed: all messages share it, or the remaining slots must go to unpicked
/// messages and all of those share it.
pub open spec fn category_repeat_only_when_forced(
    msgs: Seq<MessageTemplate>,
    recent: Seq<RecentMessage>,
    picked: Seq<usize>,
    count: int,
    k: int,
) -> bool {
    let unseen = unseen_at(msgs.len() as int, picked.take(k));
    let forced = forced_unseen(count - k, count_true(unseen) as int);
    match prev_sent(msgs, recent, picked, k) {
        Some(prev) => msgs[picked[k] as int].category@ == prev.1 ==> forall|i: int|
            0 <= i < msgs.len() && (forced ==> unseen[i]) ==> #[trigger] msgs[i].category@
                == prev.1,
        None => true,
    }
}

/// Slot `k` repeats the previous message only when every message it could
/// take within its category (the unseen ones, if the category has any) is
/// that same message.
pub open spec fn message_repeat_only_when_forced(
    msgs: Seq<MessageTemplate>,
    recent: Seq<RecentMessage>,
    picked: Seq<usize>,
    k: int,
) -> bool {
    let unseen = unseen_at(msgs.len() as int, picked.take(k));
    let m = msgs[picked[k] as int];
    match prev_sent(msgs, recent, picked, k) {
        Some(prev) => (m.text@, m.category@) == prev ==> forall|i: int|
            0 <= i < msgs.len() && msgs[i].category@ == m.category@ && ((exists|j: int|
                0 <= j < msgs.len() && msgs[j].category@ == m.category@ && #[trigger] unseen[j])
                ==> unseen[i]) ==> (#[trigger] msgs[i].text@, msgs[i].category@) == prev,
        None => true,
    }
}

/// A send as the rotation compares it: message text and category.
pub open spec fn entry_view(e: RecentMessage) -> (Seq<char>, Seq<char>) {
    (e.message@, e.category@)
}

/// A message as a send of it is recorded.
pub open spec fn msg_view(m: MessageTemplate) -> (Seq<char>, Seq<char>) {
    (m.text@, m.category@)
}

/// The sends of a history, oldest first.
pub open spec fn entry_views(h: Seq<RecentMessage>) -> Seq<(Seq<char>, Seq<char>)> {
    h.map_values(|e: RecentMessage| entry_view(e))
}

/// The sends slot `k` looks back on: the carried-over history, then the
/// messages picked for the earlier slots.
pub open spec fn sends_before(
    msgs: Seq<MessageTemplate>,
    recent: Seq<RecentMessage>,
    picked: Seq<usize>,
    k: int,
) -> Seq<(Seq<char>, Seq<char>)> {
    entry_views(recent) + picked.take(k).map_values(|i: usize| msg_view(msgs[i as int]))
}

/// How many sends back the newest one satisfying `p` stands (0 for the last
/// send), or `usize::MAX` when none does: the larger, the less recently used.
pub open spec fn last_use(
    sends: Seq<(Seq<char>, Seq<char>)>,
    p: spec_fn((Seq<char>, Seq<char>)) -> bool,
) -> int
    decreases sends.len(),
{
    if sends.len() == 0 {
        usize::MAX as int
    } else if p(sends.last()) {
        0
    } else {
        let r = last_use(sends.drop_last(), p);
        if r == usize::MAX as int {
            r
        } else {
            r + 1
        }
    }
}

/// Sends of category `c`.
pub open spec fn of_category(c: Seq<char>) -> spec_fn((Seq<char>, Seq<char>)) -> bool {
    |s: (Seq<char>, Seq<char>)| s.1 == c
}

/// Sends of message `m`.
pub open spec fn send_of(m: (Seq<char>, Seq<char>)) -> spec_fn((Seq<char>, Seq<char>)) -> bool {
    |s: (Seq<char>, Seq<char>)| s == m
}

/// `c` is the category of some message of the pool.
pub open spec fn is_category(msgs: Seq<MessageTemplate>, c: Seq<char>) -> bool {
    exists|i: int| 0 <= i < msgs.len() && (#[trigger] msgs[i]).category@ == c
}

/// Category `c` has a message not yet picked today.
pub open spec fn category_unseen(msgs: Seq<MessageTemplate>, unseen: Seq<bool>, c: Seq<char>) -> bool {
    exists|i: int| 0 <= i < msgs.len() && msgs[i].category@ == c && #[trigger] unseen[i]
}

/// First category rule: when every remaining slot must take an unseen
/// message, only categories that have one.
pub open spec fn category_allowed1(
    msgs: Seq<MessageTemplate>,
    unseen: Seq<bool>,
    forced: bool,
    c: Seq<char>,
) -> bool {
    is_category(msgs, c) && (forced ==> category_unseen(msgs, unseen, c))
}

/// Second category rule: not the category of the last send, when the first
/// rule allows another.
pub open spec fn category_allowed2(
    msgs: Seq<MessageTemplate>,
    unseen: Seq<bool>,
    forced: bool,
    sends: Seq<(Seq<char>, Seq<char>)>,
    c: Seq<char>,
) -> bool {
    &&& category_allowed1(msgs, unseen, forced, c)
    &&& (sends.len() > 0 && exists|d: Seq<char>|
        #[trigger] category_allowed1(msgs, unseen, forced, d) && d != sends.last().1) ==> c
        != sends.last().1
}

/// Third category rule: a category with unseen messages, when the first two
/// rules allow one.
pub open spec fn category_allowed(
    msgs: Seq<MessageTemplate>,
    unseen: Seq<bool>,
    forced: bool,
    sends: Seq<(Seq<char>, Seq<char>)>,
    c: Seq<char>,
) -> bool {
    &&& category_allowed2(msgs, unseen, forced, sends, c)
    &&& (exists|d: Seq<char>|
        #[trigger] category_allowed2(msgs, unseen, forced, sends, d) && category_unseen(
            msgs,
            unseen,
            d,
        )) ==> category_unseen(msgs, unseen, c)
}

/// `c` is allowed, and no allowed category was used less recently.
pub open spec fn category_choice(
    msgs: Seq<MessageTemplate>,
    unseen: Seq<bool>,
    forced: bool,
    sends: Seq<(Seq<char>, Seq<char>)>,
    c: Seq<char>,
) -> bool {
    &&& category_allowed(msgs, unseen, forced, sends, c)
    &&& forall|d: Seq<char>|
        #[trigger] category_allowed(msgs, unseen, forced, sends, d) ==> last_use(sends, of_category(d))
            <= last_use(sends, of_category(c))
}

/// First message rule: a message of category `c`, unseen if the category
/// still has unseen messages.
pub open spec fn message_allowed1(
    msgs: Seq<MessageTemplate>,
    unseen: Seq<bool>,
    c: Seq<char>,
    i: int,
) -> bool {
    &&& 0 <= i < msgs.len()
    &&& msgs[i].category@ == c
    &&& category_unseen(msgs, unseen, c) ==> unseen[i]
}

/// Second message rule: not the message of the last send, when the first
/// rule allows another.
pub open spec fn message_allowed(
    msgs: Seq<MessageTemplate>,
    unseen: Seq<bool>,
    c: Seq<char>,
    sends: Seq<(Seq<char>, Seq<char>)>,
    i: int,
) -> bool {
    &&& message_allowed1(msgs, unseen, c, i)
    &&& (sends.len() > 0 && exists|j: int|
        #[trigger] message_allowed1(msgs, unseen, c, j) && msg_view(msgs[j]) != sends.last())
        ==> msg_view(msgs[i]) != sends.last()
}

/// Message `i` is allowed, and no allowed message was used less recently.
pub open spec fn message_choice(
    msgs: Seq<MessageTemplate>,
    unseen: Seq<bool>,
    c: Seq<char>,
    sends: Seq<(Seq<char>, Seq<char>)>,
    i: int,
) -> bool {
    &&& message_allowed(msgs, unseen, c, sends, i)
    &&& forall|j: int|
        #[trigger] message_allowed(msgs, unseen, c, sends, j) ==> last_use(
            sends,
            send_of(msg_view(msgs[j])),
        ) <= last_use(sends, send_of(msg_view(msgs[i])))
}

/// The pick of slot `k`: a least recently used category among those the
/// rules allow, then a least recently used message of it among those the
/// rules allow, looking back on the history and the earlier picks.
pub open spec fn slot_choice(
    msgs: Seq<MessageTemplate>,
    recent: Seq<RecentMessage>,
    picked: Seq<usize>,
    count: int,
    k: int,
) -> bool {
    let sends = sends_before(msgs, recent, picked, k);
    let unseen = unseen_at(msgs.len() as int, picked.take(k));
    let forced = forced_unseen(count - k, count_true(unseen) as int);
    let i = picked[k] as int;
    &&& category_choice(msgs, unseen, forced, sends, msgs[i].category@)
    &&& message_choice(msgs, unseen, msgs[i].category@, sends, i)
}

/// `recency` over a history agrees with `last_use` over its sends, for
/// predicates that only look at the text and category.
proof fn lemma_recency_last_use(
    h: Seq<RecentMessage>,
    p: spec_fn(RecentMessage) -> bool,
    q: spec_fn((Seq<char>, Seq<char>)) -> bool,
)
    requires
        forall|e: RecentMessage| #[trigger] p(e) == q(entry_view(e)),
    ensures
        recency(h, p) == last_use(entry_views(h), q),
    decreases h.len(),
{
    if h.len() > 0 {
        lemma_recency_last_use(h.drop_last(), p, q);
        assert(entry_views(h.drop_last()) =~= entry_views(h).drop_last());
        assert(entry_views(h).last() == entry_view(h.last()));
    }
}

/// The pick of one slot of `select_messages` is a `slot_choice`, from the
/// contracts of `select_category` and `select_message_index`, which speak
/// of category positions instead of category names.
proof fn lemma_slot_choice(
    msgs: Seq<MessageTemplate>,
    recent: Seq<RecentMessage>,
    index: CategoryIndex,
    unseen: Seq<bool>,
    old_picked: Seq<usize>,
    h: Seq<RecentMessage>,
    c: usize,
    m: usize,
    count: int,
    remaining_unseen: int,
)
    requires
        index.wf(msgs),
        unseen == unseen_at(msgs.len() as int, old_picked),
        remaining_unseen == count_true(unseen),
        entry_views(h) == sends_before(msgs, recent, old_picked, old_picked.len() as int),
        c < index.names@.len(),
        m < msgs.len(),
        cat_step3(
            index,
            unseen,
            forced_unseen(count - old_picked.len(), remaining_unseen),
            h,
            c as int,
        ),
        forall|d: int|
            #[trigger] cat_step3(
                index,
                unseen,
                forced_unseen(count - old_picked.len(), remaining_unseen),
                h,
                d,
            ) ==> cat_score(index, h, d) <= cat_score(index, h, c as int),
        msg_step2(msgs, index.of_message@, unseen, c as int, h, m as int),
        forall|j: int|
            #[trigger] msg_step2(msgs, index.of_message@, unseen, c as int, h, j) ==> msg_score(
                msgs,
                h,
                j,
            ) <= msg_score(msgs, h, m as int),
        index.names@.len() <= usize::MAX,
    ensures
        slot_choice(msgs, recent, old_picked.push(m), count, old_picked.len() as int),
{
    let slot = old_picked.len() as int;
    let picked = old_picked.push(m);
    let forced = forced_unseen(count - old_picked.len(), remaining_unseen);
    let of = index.of_message@;
    let names = index.names@;
    let sends = entry_views(h);
    assert(picked.take(slot) =~= old_picked);
    assert(picked[slot] == m);
    assert(sends.len() == h.len());
    if h.len() > 0 {
        assert(sends.last() == entry_view(h.last()));
    }
    // Category positions and category names.
    assert forall|d: int| 0 <= d < names.len() implies is_category(msgs, (#[trigger] names[d])@) by {
        assert(of.contains(d as usize));
        let i = choose|i: int| 0 <= i < of.len() && of[i] == d as usize;
        assert(msgs[i].category@ == names[d]@);
    }
    assert forall|name: Seq<char>| is_category(msgs, name) implies exists|d: int|
        0 <= d < names.len() && (#[trigger] names[d])@ == name by {
        let i = choose|i: int| 0 <= i < msgs.len() && (#[trigger] msgs[i]).category@ == name;
        let d = of[i] as int;
        assert(names[d]@ == msgs[i].category@);
    }
    assert forall|d: int| 0 <= d < names.len() implies has_unseen(of, unseen, d)
        == category_unseen(msgs, unseen, (#[trigger] names[d])@) by {
        if has_unseen(of, unseen, d) {
            let i = choose|i: int| 0 <= i < of.len() && of[i] == d && #[trigger] unseen[i];
            assert(msgs[i].category@ == names[d]@);
        }
        if category_unseen(msgs, unseen, names[d]@) {
            let i = choose|i: int|
                0 <= i < msgs.len() && msgs[i].category@ == names[d]@ && #[trigger] unseen[i];
            assert(of[i] < names.len());
            assert(of[i] == d);
        }
    }
    assert forall|d: int| 0 <= d < names.len() implies cat_step1(index, unseen, forced, d)
        == category_allowed1(msgs, unseen, forced, (#[trigger] names[d])@) by {}
    if h.len() > 0 {
        let last = h.last().category@;
        assert((exists|d: int| #[trigger] cat_step1(index, unseen, forced, d) && names[d]@ != last)
            == (exists|name: Seq<char>|
            #[trigger] category_allowed1(msgs, unseen, forced, name) && name != last)) by {
            if exists|d: int| #[trigger] cat_step1(index, unseen, forced, d) && names[d]@ != last {
                let d = choose|d: int| #[trigger] cat_step1(index, unseen, forced, d) && names[d]@ != last;
                assert(category_allowed1(msgs, unseen, forced, names[d]@));
            }
            if exists|name: Seq<char>|
                #[trigger] category_allowed1(msgs, unseen, forced, name) && name != last {
                let name = choose|name: Seq<char>|
                    #[trigger] category_allowed1(msgs, unseen, forced, name) && name != last;
                let d = choose|d: int| 0 <= d < names.len() && (#[trigger] names[d])@ == name;
                assert(cat_step1(index, unseen, forced, d));
            }
        }
    }
    assert forall|d: int| 0 <= d < names.len() implies cat_step2(index, unseen, forced, h, d)
        == category_allowed2(msgs, unseen, forced, sends, (#[trigger] names[d])@) by {}
    assert((exists|d: int|
        #[trigger] cat_step2(index, unseen, forced, h, d) && has_unseen(of, unseen, d)) == (exists|
        name: Seq<char>,
    |
        #[trigger] category_allowed2(msgs, unseen, forced, sends, name) && category_unseen(
            msgs,
            unseen,
            name,
        ))) by {
        if exists|d: int| #[trigger] cat_step2(index, unseen, forced, h, d) && has_unseen(of, unseen, d) {
            let d = choose|d: int|
                #[trigger] cat_step2(index, unseen, forced, h, d) && has_unseen(of, unseen, d);
            assert(category_allowed2(msgs, unseen, forced, sends, names[d]@));
        }
        if exists|name: Seq<char>|
            #[trigger] category_allowed2(msgs, unseen, forced, sends, name) && category_unseen(
                msgs,
                unseen,
                name,
            ) {
            let name = choose|name: Seq<char>|
                #[trigger] category_allowed2(msgs, unseen, forced, sends, name) && category_unseen(
                    msgs,
                    unseen,
                    name,
                );
            let d = choose|d: int| 0 <= d < names.len() && (#[trigger] names[d])@ == name;
            assert(cat_step2(index, unseen, forced, h, d));
        }
    }
    assert forall|d: int| 0 <= d < names.len() implies cat_step3(index, unseen, forced, h, d)
        == category_allowed(msgs, unseen, forced, sends, (#[trigger] names[d])@) by {}
    let cname = names[c as int]@;
    assert(of[m as int] == c);
    assert(msgs[m as int].category@ == cname);
    assert forall|name: Seq<char>| #[trigger] category_allowed(msgs, unseen, forced, sends, name) implies last_use(
        sends,
        of_category(name),
    ) <= last_use(sends, of_category(cname)) by {
        let d = choose|d: int| 0 <= d < names.len() && (#[trigger] names[d])@ == name;
        assert(cat_step3(index, unseen, forced, h, d));
        lemma_recency_last_use(h, in_category(name), of_category(name));
        lemma_recency_last_use(h, in_category(cname), of_category(cname));
    }
    assert(category_choice(msgs, unseen, forced, sends, cname));
    // Messages of the chosen category.
    assert forall|j: int| msg_step0(of, c as int, j) == (0 <= j < msgs.len() && (#[trigger] msgs[j]).category@
        == cname) by {
        if 0 <= j < msgs.len() {
            assert(of[j] < names.len());
        }
    }
    assert((exists|j: int| #[trigger] msg_step0(of, c as int, j) && unseen[j]) == category_unseen(
        msgs,
        unseen,
        cname,
    )) by {
        if exists|j: int| #[trigger] msg_step0(of, c as int, j) && unseen[j] {
            let j = choose|j: int| #[trigger] msg_step0(of, c as int, j) && unseen[j];
            assert(msgs[j].category@ == cname);
        }
        if category_unseen(msgs, unseen, cname) {
            let j = choose|j: int| 0 <= j < msgs.len() && msgs[j].category@ == cname && #[trigger] unseen[j];
            assert(msgs[j].category@ == cname);
            assert(msg_step0(of, c as int, j));
        }
    }
    assert forall|j: int| #[trigger] msg_step1(of, unseen, c as int, j) == message_allowed1(msgs, unseen, cname, j) by {
        assert(msg_step0(of, c as int, j) == (0 <= j < msgs.len() && msgs[j].category@ == cname));
    }
    if h.len() > 0 {
        assert((exists|j: int| #[trigger] msg_step1(of, unseen, c as int, j) && !same_message(msgs[j], h.last()))
            == (exists|j: int|
            #[trigger] message_allowed1(msgs, unseen, cname, j) && msg_view(msgs[j]) != sends.last())) by {
            if exists|j: int| #[trigger] msg_step1(of, unseen, c as int, j) && !same_message(msgs[j], h.last()) {
                let j = choose|j: int|
                    #[trigger] msg_step1(of, unseen, c as int, j) && !same_message(msgs[j], h.last());
                assert(message_allowed1(msgs, unseen, cname, j));
            }
            if exists|j: int|
                #[trigger] message_allowed1(msgs, unseen, cname, j) && msg_view(msgs[j]) != sends.last() {
                let j = choose|j: int|
                    #[trigger] message_allowed1(msgs, unseen, cname, j) && msg_view(msgs[j]) != sends.last();
                assert(msg_step1(of, unseen, c as int, j));
            }
        }
    }
    assert forall|j: int| #[trigger] msg_step2(msgs, of, unseen, c as int, h, j) == message_allowed(
        msgs,
        unseen,
        cname,
        sends,
        j,
    ) by {
        assert(msg_step1(of, unseen, c as int, j) == message_allowed1(msgs, unseen, cname, j));
    }
    assert forall|j: int| #[trigger] message_allowed(msgs, unseen, cname, sends, j) implies last_use(
        sends,
        send_of(msg_view(msgs[j])),
    ) <= last_use(sends, send_of(msg_view(msgs[m as int]))) by {
        assert(msg_step2(msgs, of, unseen, c as int, h, j));
        lemma_recency_last_use(
            h,
            is_message(msgs[j].text@, msgs[j].category@),
            send_of(msg_view(msgs[j])),
        );
        lemma_recency_last_use(
            h,
            is_message(msgs[m as int].text@, msgs[m as int].category@),
            send_of(msg_view(msgs[m as int])),
        );
    }
    assert(message_allowed(msgs, unseen, cname, sends, m as int));
    assert(message_choice(msgs, unseen, cname, sends, m as int));
    assert(sends_before(msgs, recent, picked, slot) == sends);
    assert(unseen_at(msgs.len() as int, picked.take(slot)) == unseen);
}

/// What one slot of `select_messages` establishes, from the contracts of
/// `select_category` and `select_message_index`.
proof fn lemma_slot_laws(
    msgs: Seq<MessageTemplate>,
    recent: Seq<RecentMessage>,
    index: CategoryIndex,
    unseen: Seq<bool>,
    old_picked: Seq<usize>,
    h: Seq<RecentMessage>,
    c: usize,
    m: usize,
    count: int,
    remaining_unseen: int,
)
    requires
        index.wf(msgs),
        unseen == unseen_at(msgs.len() as int, old_picked),
        remaining_unseen == count_true(unseen),
        old_picked.len() < count,
        h.len() > 0 <==> prev_sent(msgs, recent, old_picked, old_picked.len() as int) is Some,
        h.len() > 0 ==> prev_sent(msgs, recent, old_picked, old_picked.len() as int) == Some(
            (h.last().message@, h.last().category@),
        ),
        c < index.names@.len(),
        m < msgs.len(),
        cat_step3(
            index,
            unseen,
            forced_unseen(count - old_picked.len(), remaining_unseen),
            h,
            c as int,
        ),
        msg_step2(msgs, index.of_message@, unseen, c as int, h, m as int),
    ensures
        category_repeat_only_when_forced(
            msgs,
            recent,
            old_picked.push(m),
            count,
            old_picked.len() as int,
        ),
        message_repeat_only_when_forced(msgs, recent, old_picked.push(m), old_picked.len() as int),
        forced_unseen(count - old_picked.len(), remaining_unseen) ==> unseen[m as int],
{
    let slot = old_picked.len() as int;
    let picked = old_picked.push(m);
    let forced = forced_unseen(count - old_picked.len(), remaining_unseen);
    let of = index.of_message@;
    assert(picked.take(slot) =~= old_picked);
    assert(picked[slot] == m);
    if slot > 0 {
        assert(picked[slot - 1] == old_picked[slot - 1]);
    }
    assert(prev_sent(msgs, recent, picked, slot) == prev_sent(msgs, recent, old_picked, slot));
    assert(of[m as int] == c);
    assert(msgs[m as int].category@ == index.names@[c as int]@);
    if forced {
        assert(has_unseen(of, unseen, c as int));
        let j = choose|j: int| 0 <= j < of.len() && of[j] == c && #[trigger] unseen[j];
        assert(msg_step0(of, c as int, j));
    }
    match prev_sent(msgs, recent, picked, slot) {
        Some(prev) => {
            if msgs[m as int].category@ == prev.1 {
                assert forall|i: int|
                    0 <= i < msgs.len() && (forced ==> unseen[i]) implies #[trigger] msgs[i].category@
                    == prev.1 by {
                    let d = of[i] as int;
                    if forced {
                        assert(has_unseen(of, unseen, d));
                    }
                    assert(cat_step1(index, unseen, forced, d));
                    assert(msgs[i].category@ == index.names@[d]@);
                }
            }
            let mm = msgs[m as int];
            if (mm.text@, mm.category@) == prev {
                assert forall|i: int|
                    0 <= i < msgs.len() && msgs[i].category@ == mm.category@ && ((exists|j: int|
                        0 <= j < msgs.len() && msgs[j].category@ == mm.category@
                            && #[trigger] unseen[j]) ==> unseen[i]) implies (
                #[trigger] msgs[i].text@,
                msgs[i].category@,
            ) == prev by {
                    assert(of[i] == c);
                    assert(msg_step0(of, c as int, i));
                    if exists|j: int| #[trigger] msg_step0(of, c as int, j) && unseen[j] {
                        let j = choose|j: int| #[trigger] msg_step0(of, c as int, j) && unseen[j];
                        assert(msgs[j].category@ == mm.category@);
                    }
                    assert(msg_step1(of, unseen, c as int, i));
                }
            }
        },
        None => {},
    }
}

/// Picks the messages of a day's random pokes, as positions in `messages`.
pub fn select_messages(
    messages: &Vec<MessageTemplate>,
    count: usize,
    recent_history: &Vec<RecentMessage>,
    rng: &mut rand::rngs::StdRng,
) -> (picked: Vec<usize>)
    requires
        count > 0 ==> messages@.len() > 0,
    ensures
        picked@.len() == count,
        forall|k: int| 0 <= k < count ==> #[trigger] picked@[k] < messages@.len(),
        messages@.len() <= count ==> forall|i: usize|
            i < messages@.len() ==> #[trigger] picked@.contains(i),
        messages@.len() <= count ==> forall|i: int, j: int|
            0 <= i < j < count && j < messages@.len() ==> #[trigger] picked@[i] != #[trigger] picked@[j],
        forall|k: int|
            0 <= k < count ==> #[trigger] category_repeat_only_when_forced(
                messages@,
                recent_history@,
                picked@,
                count as int,
                k,
            ),
        forall|k: int|
            0 <= k < count ==> #[trigger] message_repeat_only_when_forced(
                messages@,
                recent_history@,
                picked@,
                k,
            ),
        forall|k: int|
            0 <= k < count ==> #[trigger] slot_choice(
                messages@,
                recent_history@,
                picked@,
                count as int,
                k,
            ),
{
    let n = messages.len();
    let ghost msgs = messages@;
    let ghost recent = recent_history@;
    let index = category_members(messages);
    let mut unseen: Vec<bool> = Vec::new();
    let mut i: usize = 0;
    while i < n
        invariant
            i <= n,
            unseen@.len() == i,
            forall|j: int| 0 <= j < i ==> #[trigger] unseen@[j],
        decreases n - i,
    {
        unseen.push(true);
        i += 1;
    }
    let mut working_history: Vec<RecentMessage> = Vec::new();
    let mut i: usize = 0;
    while i < recent_history.len()
        invariant
            i <= recent_history@.len(),
            working_history@ == recent_history@.take(i as int),
        decreases recent_history@.len() - i,
    {
        working_history.push(recent_history[i].duplicate());
        assert(working_history@ =~= recent_history@.take(i + 1));
        i += 1;
    }
    assert(working_history@ =~= recent_history@);
    proof {
        lemma_count_true_all(unseen@);
        assert(unseen@ =~= unseen_at(n as int, Seq::<usize>::empty()));
    }
    let category_total = index.names.len();
    let mut picked: Vec<usize> = Vec::new();
    let mut slot: usize = 0;
    proof {
        assert(entry_views(recent) + Seq::<usize>::empty().take(0).map_values(
            |i: usize| msg_view(msgs[i as int]),
        ) =~= entry_views(recent));
    }
    while slot < count
        invariant
            category_total == index.names@.len(),
            entry_views(working_history@) == sends_before(msgs, recent, picked@, slot as int),
            forall|k: int|
                0 <= k < slot ==> #[trigger] slot_choice(msgs, recent, picked@, count as int, k),
            slot <= count,
            n == msgs.len(),
            msgs == messages@,
            recent == recent_history@,
            count > 0 ==> n > 0,
            index.wf(msgs),
            picked@.len() == slot,
            forall|k: int| 0 <= k < slot ==> #[trigger] picked@[k] < n,
            unseen@ =~= unseen_at(n as int, picked@),
            n <= count ==> count_true(unseen@) == if slot <= n {
                n - slot
            } else {
                0
            },
            n <= count ==> forall|i: int, j: int|
                0 <= i < j < slot && j < n ==> picked@[i] != picked@[j],
            working_history@.len() > 0 <==> prev_sent(msgs, recent, picked@, slot as int) is Some,
            working_history@.len() > 0 ==> prev_sent(msgs, recent, picked@, slot as int) == Some(
                (working_history@.last().message@, working_history@.last().category@),
            ),
            forall|k: int|
                0 <= k < slot ==> #[trigger] category_repeat_only_when_forced(
                    msgs,
                    recent,
                    picked@,
                    count as int,
                    k,
                ),
            forall|k: int|
                0 <= k < slot ==> #[trigger] message_repeat_only_when_forced(
                    msgs,
                    recent,
                    picked@,
                    k,
                ),
        decreases count - slot,
    {
        let remaining_slots = count - slot;
        let remaining_unseen = count_unseen(&unseen);
        proof {
            if remaining_unseen > 0 {
                lemma_count_true_positive(unseen@);
            }
            let i0 = 0int;
            assert(index.of_message@[i0] < index.names@.len());
        }
        let category = select_category(
            &index,
            &unseen,
            &working_history,
            remaining_slots,
            remaining_unseen,
            rng,
        );
        proof {
            assert(index.names@[category as int] == index.names@[category as int]);
        }
        let message_index = select_message_index(
            messages,
            &index,
            category,
            &unseen,
            &working_history,
            rng,
        );
        let ghost old_unseen = unseen@;
        let ghost old_picked = picked@;
        let ghost old_history = working_history@;
        unseen.set(message_index, false);
        picked.push(message_index);
        working_history.push(
            RecentMessage::new(
                messages[message_index].text.as_str(),
                messages[message_index].category.as_str(),
            ),
        );
        proof {
            lemma_slot_laws(
                msgs,
                recent,
                index,
                old_unseen,
                old_picked,
                old_history,
                category,
                message_index,
                count as int,
                remaining_unseen as int,
            );
            lemma_slot_choice(
                msgs,
                recent,
                index,
                old_unseen,
                old_picked,
                old_history,
                category,
                message_index,
                count as int,
                remaining_unseen as int,
            );
            let f = |i: usize| msg_view(msgs[i as int]);
            assert(picked@.take(slot + 1) =~= old_picked.push(message_index));
            assert(old_picked.push(message_index).map_values(f) =~= old_picked.map_values(f).push(
                msg_view(msgs[message_index as int]),
            ));
            assert(old_picked.take(slot as int) =~= old_picked);
            assert(entry_views(working_history@) =~= entry_views(old_history).push(
                msg_view(msgs[message_index as int]),
            ));
            assert(entry_views(working_history@) =~= sends_before(
                msgs,
                recent,
                picked@,
                slot + 1,
            ));
            assert forall|k: int|
                0 <= k < slot + 1 implies #[trigger] slot_choice(
                msgs,
                recent,
                picked@,
                count as int,
                k,
            ) by {
                assert(picked@.take(k) =~= old_picked.take(k));
                if k < slot {
                    assert(slot_choice(msgs, recent, old_picked, count as int, k));
                    assert(picked@[k] == old_picked[k]);
                }
            }
            assert(picked@.take(slot as int) =~= old_picked);
            assert(unseen@ =~= unseen_at(n as int, picked@)) by {
                assert forall|i: int| 0 <= i < n implies unseen@[i] == !picked@.contains(i as usize) by {
                    if picked@.contains(i as usize) && i != message_index {
                        let k = choose|k: int| 0 <= k < picked@.len() && picked@[k] == i as usize;
                        assert(old_picked[k] == i as usize);
                    }
                    if old_picked.contains(i as usize) {
                        let k = choose|k: int| 0 <= k < old_picked.len() && old_picked[k] == i as usize;
                        assert(picked@[k] == i as usize);
                    }
                    if i == message_index {
                        assert(picked@[slot as int] == i as usize);
                    }
                }
            }
            lemma_count_true_update(old_unseen, message_index as int);
            if n <= count && slot >= n {
                lemma_count_true_zero(old_unseen);
            }
            assert forall|i: int, j: int| n <= count && 0 <= i < j < slot + 1 && j < n implies picked@[i]
                != picked@[j] by {
                if j == slot {
                    assert(old_unseen[message_index as int]);
                    assert(picked@[i] == old_picked[i]);
                    assert(!old_picked.contains(message_index));
                } else {
                    assert(picked@[i] == old_picked[i] && picked@[j] == old_picked[j]);
                }
            }
            assert forall|k: int|
                0 <= k < slot + 1 implies #[trigger] category_repeat_only_when_forced(
                msgs,
                recent,
                picked@,
                count as int,
                k,
            ) by {
                assert(picked@.take(k) =~= old_picked.take(k));
                if k < slot {
                    assert(category_repeat_only_when_forced(msgs, recent, old_picked, count as int, k));
                    assert(picked@[k] == old_picked[k]);
                    if k > 0 {
                        assert(picked@[k - 1] == old_picked[k - 1]);
                    }
                }
            }
            assert forall|k: int|
                0 <= k < slot + 1 implies #[trigger] message_repeat_only_when_forced(
                msgs,
                recent,
                picked@,
                k,
            ) by {
                assert(picked@.take(k) =~= old_picked.take(k));
                if k < slot {
                    assert(message_repeat_only_when_forced(msgs, recent, old_picked, k));
                    assert(picked@[k] == old_picked[k]);
                    if k > 0 {
                        assert(picked@[k - 1] == old_picked[k - 1]);
                    }
                }
            }
        }
        slot += 1;
    }
    proof {
        if n <= count {
            lemma_count_true_zero(unseen@);
            assert forall|i: usize| i < n implies #[trigger] picked@.contains(i) by {
                assert(!unseen@[i as int]);
            }
        }
    }
    picked
}

} // verus!
