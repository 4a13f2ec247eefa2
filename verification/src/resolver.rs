use vstd::prelude::*;
use crate::channel::ChannelError;
use crate::offsets::{
    any_invalid, distinct_keys, has_key, keys_of, lemma_lookup_at, lookup, uniform, EntryView,
    OffsetPolicy, PartitionOffsetList,
};

verus! {

/// How long one metadata fetch may take, in seconds.
pub const METADATA_TIMEOUT_SECS: u64 = 5;

/// Why a resolution gave no map.
#[derive(Debug)]
pub enum ResolutionError {
    /// The partitions of a topic could not be discovered; the broker's message is kept.
    Metadata(String),
    /// A query to the broker failed.
    Channel(ChannelError),
}

/// The characters of each name, in order.
pub open spec fn names(v: Seq<String>) -> Seq<Seq<char>> {
    Seq::new(v.len(), |i: int| v[i]@)
}

/// The names of `s` in order of first occurrence, each once.
pub open spec fn distinct(s: Seq<Seq<char>>) -> Seq<Seq<char>>
    decreases s.len(),
{
    if s.len() == 0 {
        Seq::empty()
    } else {
        let before = distinct(s.drop_last());
        if before.contains(s.last()) {
            before
        } else {
            before.push(s.last())
        }
    }
}

/// `distinct` repeats no name, and holds exactly the names of its argument.
pub proof fn lemma_distinct(s: Seq<Seq<char>>)
    ensures
        distinct(s).no_duplicates(),
        forall|n: Seq<char>| distinct(s).contains(n) <==> s.contains(n),
    decreases s.len(),
{
    if s.len() > 0 {
        let front = s.drop_last();
        lemma_distinct(front);
        let d = distinct(s);
        let df = distinct(front);
        assert(forall|i: int| 0 <= i < df.len() ==> d[i] == df[i]);
        assert forall|n: Seq<char>| d.contains(n) <==> s.contains(n) by {
            if d.contains(n) {
                let i = choose|i: int| 0 <= i < d.len() && d[i] == n;
                if i < df.len() {
                    assert(df[i] == n);
                    assert(df.contains(n));
                    assert(front.contains(n));
                    let j = choose|j: int| 0 <= j < front.len() && front[j] == n;
                    assert(s[j] == n);
                } else {
                    assert(s[s.len() - 1] == n);
                }
                assert(s.contains(n));
            }
            if s.contains(n) {
                let j = choose|j: int| 0 <= j < s.len() && s[j] == n;
                if j < front.len() {
                    assert(front[j] == n);
                    assert(front.contains(n));
                    assert(df.contains(n));
                }
                if df.contains(n) {
                    let i = choose|i: int| 0 <= i < df.len() && df[i] == n;
                    assert(d[i] == n);
                } else {
                    assert(s.last() == n);
                    assert(d[d.len() - 1] == n);
                }
                assert(d.contains(n));
            }
        }
    }
}

/// The topics of a request, each once, in order of first occurrence.
pub fn unique_topics(topics: &Vec<String>) -> (r: Vec<String>)
    ensures
        names(r@) == distinct(names(topics@)),
{
    let mut out: Vec<String> = Vec::new();
    let mut i: usize = 0;
    proof {
        assert(names(topics@).take(0) =~= Seq::<Seq<char>>::empty());
        assert(names(out@) =~= Seq::<Seq<char>>::empty());
    }
    while i < topics.len()
        invariant
            i <= topics@.len(),
            names(out@) == distinct(names(topics@).take(i as int)),
        decreases topics@.len() - i,
    {
        let ghost prefix = names(topics@).take(i as int + 1);
        proof {
            assert(prefix.drop_last() =~= names(topics@).take(i as int));
            assert(prefix.last() == topics@[i as int]@);
        }
        let mut seen = false;
        let mut j: usize = 0;
        while j < out.len()
            invariant
                j <= out@.len(),
                i < topics@.len(),
                seen == exists|k: int| 0 <= k < j && names(out@)[k] == topics@[i as int]@,
            decreases out@.len() - j,
        {
            if out[j] == topics[i] {
                assert(names(out@)[j as int] == topics@[i as int]@);
                seen = true;
            }
            j += 1;
        }
        if !seen {
            let ghost before = names(out@);
            out.push(topics[i].clone());
            proof {
                assert(names(out@) =~= before.push(topics@[i as int]@));
            }
        }
        i += 1;
    }
    proof {
        assert(names(topics@).take(topics@.len() as int) =~= names(topics@));
    }
    out
}

/// The entries that one topic contributes: its partitions from 0 up to `count`, each at
/// `policy`; none where `count` is not positive.
pub open spec fn topic_range(name: Seq<char>, count: i32, policy: OffsetPolicy) -> Seq<EntryView> {
    Seq::new(
        if count > 0 {
            count as nat
        } else {
            0
        },
        |p: int| EntryView { key: (name, p), offset: policy },
    )
}

/// The request list for the topics whose partition counts are known: the ranges of the
/// topics, one after the other.
pub open spec fn request_for(
    topics: Seq<Seq<char>>,
    counts: Seq<i32>,
    policy: OffsetPolicy,
) -> Seq<EntryView>
    decreases counts.len(),
{
    if counts.len() == 0 || counts.len() > topics.len() {
        Seq::empty()
    } else {
        request_for(topics, counts.drop_last(), policy) + topic_range(
            topics[counts.len() - 1],
            counts.last(),
            policy,
        )
    }
}

/// The number of partitions that the counts announce.
pub open spec fn total_partitions(counts: Seq<i32>) -> int
    decreases counts.len(),
{
    if counts.len() == 0 {
        0
    } else {
        total_partitions(counts.drop_last()) + if counts.last() > 0 {
            counts.last() as int
        } else {
            0
        }
    }
}

/// Whether an entry of `s` belongs to the topic `name`.
pub open spec fn mentions(s: Seq<EntryView>, name: Seq<char>) -> bool {
    exists|i: int| 0 <= i < s.len() && (#[trigger] s[i]).key.0 == name
}

/// A request holds one entry for each announced partition and no other: as many entries
/// as the counts announce, no partition twice, every entry at the policy asked for, the
/// partitions of each topic numbered from 0, and nothing for a topic without partitions.
pub proof fn lemma_request_complete(topics: Seq<Seq<char>>, counts: Seq<i32>, policy: OffsetPolicy)
    requires
        topics.no_duplicates(),
        counts.len() <= topics.len(),
    ensures
        request_for(topics, counts, policy).len() == total_partitions(counts),
        distinct_keys(request_for(topics, counts, policy)),
        forall|i: int|
            0 <= i < request_for(topics, counts, policy).len() ==> (#[trigger] request_for(
                topics,
                counts,
                policy,
            )[i]).offset == policy,
        forall|k: int, p: int|
            0 <= k < counts.len() && 0 <= p < counts[k] ==> #[trigger] has_key(
                request_for(topics, counts, policy),
                (topics[k], p),
            ),
        forall|name: Seq<char>| #[trigger]
            mentions(request_for(topics, counts, policy), name) ==> exists|k: int|
                0 <= k < counts.len() && topics[k] == name && counts[k] > 0,
    decreases counts.len(),
{
    if counts.len() > 0 {
        let front = counts.drop_last();
        lemma_request_complete(topics, front, policy);
        let before = request_for(topics, front, policy);
        let last = counts.len() - 1;
        let range = topic_range(topics[last], counts.last(), policy);
        let all = request_for(topics, counts, policy);
        assert(all == before + range);
        assert forall|name: Seq<char>| #[trigger] mentions(all, name) implies exists|k: int|
            0 <= k < counts.len() && topics[k] == name && counts[k] > 0 by {
            let i = choose|i: int| 0 <= i < all.len() && (#[trigger] all[i]).key.0 == name;
            if i < before.len() {
                assert(before[i].key.0 == name);
                assert(mentions(before, name));
                let k = choose|k: int| 0 <= k < front.len() && topics[k] == name && front[k] > 0;
                assert(counts[k] == front[k]);
            } else {
                assert(all[i] == range[i - before.len()]);
                assert(topics[last] == name && counts[last] > 0);
            }
        }
        assert forall|i: int, j: int| 0 <= i < j < all.len() implies (#[trigger] all[i]).key != (
        #[trigger] all[j]).key by {
            if j < before.len() {
                assert(all[i] == before[i] && all[j] == before[j]);
            } else if i < before.len() {
                assert(all[i] == before[i]);
                assert(all[j] == range[j - before.len()]);
                if all[i].key == all[j].key {
                    assert(mentions(before, topics[last]));
                    let k = choose|k: int|
                        0 <= k < front.len() && topics[k] == topics[last] && front[k] > 0;
                    assert(false);
                }
            } else {
                assert(all[i] == range[i - before.len()]);
                assert(all[j] == range[j - before.len()]);
            }
        }
        assert forall|i: int| 0 <= i < all.len() implies (#[trigger] all[i]).offset == policy by {
            if i < before.len() {
                assert(all[i] == before[i]);
            } else {
                assert(all[i] == range[i - before.len()]);
            }
        }
        assert forall|k: int, p: int|
            0 <= k < counts.len() && 0 <= p < counts[k] implies #[trigger] has_key(
            all,
            (topics[k], p),
        ) by {
            if k < front.len() {
                assert(front[k] == counts[k]);
                assert(has_key(before, (topics[k], p)));
                let i = choose|i: int|
                    0 <= i < before.len() && (#[trigger] before[i]).key == (topics[k], p);
                assert(all[i] == before[i]);
            } else {
                assert(all[before.len() + p] == range[p]);
            }
        }
    }
}

/// Adds the partitions of one topic to a request list.
pub fn add_topic_partitions(
    list: &mut PartitionOffsetList,
    topic: &String,
    count: i32,
    policy: OffsetPolicy,
)
    requires
        old(list).wf(),
        !mentions(old(list)@, topic@),
    ensures
        final(list).wf(),
        final(list)@ == old(list)@ + topic_range(topic@, count, policy),
{
    let mut p: i32 = 0;
    proof {
        assert(list@ =~= old(list)@ + topic_range(topic@, 0, policy));
    }
    while p < count
        invariant
            0 <= p,
            p <= count || p == 0,
            !mentions(old(list)@, topic@),
            list.wf(),
            list@ == old(list)@ + topic_range(topic@, p, policy),
        decreases count - p,
    {
        proof {
            let key = (topic@, p as int);
            if has_key(list@, key) {
                let i = choose|i: int| 0 <= i < list@.len() && (#[trigger] list@[i]).key == key;
                if i < old(list)@.len() {
                    assert(list@[i] == old(list)@[i]);
                    assert(old(list)@[i].key.0 == topic@);
                    assert(mentions(old(list)@, topic@));
                    assert(false);
                } else {
                    let range = topic_range(topic@, p, policy);
                    let k = i - old(list)@.len();
                    assert(range.len() == p);
                    assert(list@[i] == range[k]);
                    assert(range[k].key == (topic@, k));
                    assert(false);
                }
            }
        }
        list.append(topic.clone(), p, policy);
        p += 1;
        proof {
            assert(list@ =~= old(list)@ + topic_range(topic@, p, policy));
        }
    }
    proof {
        assert(topic_range(topic@, p, policy) =~= topic_range(topic@, count, policy));
    }
}

/// Whether a second query is owed: only a numeric primary policy can fall back, and only
/// where the first answer left a partition `Invalid`.
pub open spec fn needs_fallback(primary: OffsetPolicy, response: Seq<EntryView>) -> bool {
    primary.spec_is_specific() && any_invalid(response)
}

/// The first answer with each `Invalid` entry replaced by what the second answer holds for
/// that partition, and `Invalid` kept where it holds nothing.
pub open spec fn patched(first: Seq<EntryView>, second: Seq<EntryView>) -> Seq<EntryView> {
    Seq::new(
        first.len(),
        |i: int|
            if first[i].offset == OffsetPolicy::Invalid {
                EntryView { key: first[i].key, offset: lookup(second, first[i].key) }
            } else {
                first[i]
            },
    )
}

/// Decides whether the first answer calls for a second query.
pub fn fallback_needed(primary: OffsetPolicy, response: &PartitionOffsetList) -> (r: bool)
    ensures
        r == needs_fallback(primary, response@),
{
    primary.is_specific() && response.has_invalid()
}

/// Replaces the `Invalid` entries of the first answer by the offsets of the second.
pub fn patch_invalid(first: PartitionOffsetList, second: &PartitionOffsetList) -> (r:
    PartitionOffsetList)
    requires
        first.wf(),
        second.wf(),
    ensures
        r.wf(),
        r@ == patched(first@, second@),
{
    let mut list = first;
    let mut i: usize = 0;
    while i < list.len()
        invariant
            list.wf(),
            second.wf(),
            list@.len() == first@.len(),
            i <= list@.len(),
            forall|j: int| 0 <= j < i ==> (#[trigger] list@[j]) == patched(first@, second@)[j],
            forall|j: int| i <= j < list@.len() ==> (#[trigger] list@[j]) == first@[j],
        decreases list@.len() - i,
    {
        if list.offset(i).is_invalid() {
            let partition = list.partition(i);
            let found = second.offset_of(list.topic(i), partition);
            list.set_offset(i, found);
        }
        i += 1;
    }
    proof {
        assert(list@ =~= patched(first@, second@));
    }
    list
}

/// A patch keeps the partitions of the first answer, in their order, and changes no entry but
/// an `Invalid` one.
pub proof fn lemma_patch_is_targeted(first: Seq<EntryView>, second: Seq<EntryView>)
    ensures
        keys_of(patched(first, second)) == keys_of(first),
        forall|i: int|
            0 <= i < first.len() && (#[trigger] first[i]).offset != OffsetPolicy::Invalid
                ==> patched(first, second)[i] == first[i],
        forall|i: int|
            0 <= i < first.len() && (#[trigger] first[i]).offset == OffsetPolicy::Invalid
                ==> patched(first, second)[i].offset == lookup(second, first[i].key),
{
    assert(keys_of(patched(first, second)) =~= keys_of(first));
}

} // verus!
