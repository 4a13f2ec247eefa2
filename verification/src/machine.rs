use vstd::prelude::*;
use crate::channel::ChannelError;
use crate::offsets::{
    distinct_keys, keys_of, uniform, EntryView, OffsetPolicy, PartitionOffsetList,
    ResolvedOffsetMap,
};
use crate::resolver::{
    add_topic_partitions, distinct, fallback_needed, lemma_distinct, lemma_patch_is_targeted,
    lemma_request_complete, mentions, names, needs_fallback, patch_invalid, patched, request_for,
    total_partitions, unique_topics, ResolutionError,
};

verus! {

/// Where a resolution stands.
#[derive(Clone, Copy, Debug, PartialEq, Eq, Structural)]
pub enum Phase {
    /// It waits for the metadata of a topic.
    Discovering,
    /// It waits for the answer to the query at the primary policy.
    Primary,
    /// It waits for the answer to the query at the fallback policy.
    Fallback,
    /// It has given its outcome.
    Finished,
}

/// What the caller is to do next for a resolution.
#[derive(Debug)]
pub enum Action {
    /// Fetch the partition count of this topic and report it with `on_metadata`.
    FetchMetadata(String),
    /// Submit this list to the broker and report the answer with `on_response`.
    Query(PartitionOffsetList),
    /// The resolution has ended with this outcome.
    Done(Result<ResolvedOffsetMap, ResolutionError>),
}

/// The mathematical value of an action.
pub enum ActionView {
    FetchMetadata(Seq<char>),
    Query(Seq<EntryView>),
    Done(Result<Seq<EntryView>, ResolutionError>),
}

impl Action {
    /// Whether the list that the action carries, if any, repeats no partition.
    pub open spec fn wf(&self) -> bool {
        match *self {
            Action::Query(l) => l.wf(),
            Action::Done(Ok(m)) => m.wf(),
            _ => true,
        }
    }
}

impl View for Action {
    type V = ActionView;

    open spec fn view(&self) -> ActionView {
        match *self {
            Action::FetchMetadata(t) => ActionView::FetchMetadata(t@),
            Action::Query(l) => ActionView::Query(l@),
            Action::Done(Ok(m)) => ActionView::Done(Ok(m@)),
            Action::Done(Err(e)) => ActionView::Done(Err(e)),
        }
    }
}

/// The mathematical value of a resolution under way.
pub struct ResolverView {
    /// The topics asked for, each once.
    pub topics: Seq<Seq<char>>,
    pub primary: OffsetPolicy,
    pub fallback: OffsetPolicy,
    pub phase: Phase,
    /// The partition counts learned so far, one for each topic from the first on.
    pub counts: Seq<i32>,
    /// The answer to the primary query, kept while the fallback query is out.
    pub answer: Seq<EntryView>,
}

/// What holds of every resolution under way.
pub open spec fn valid(v: ResolverView) -> bool {
    &&& v.topics.no_duplicates()
    &&& v.counts.len() <= v.topics.len()
    &&& v.phase == Phase::Discovering ==> v.counts.len() < v.topics.len()
    &&& v.phase == Phase::Primary || v.phase == Phase::Fallback ==> v.counts.len()
        == v.topics.len()
    &&& distinct_keys(v.answer)
}

/// The value of a broker's answer.
pub open spec fn response_view(r: Result<PartitionOffsetList, ChannelError>) -> Result<
    Seq<EntryView>,
    ChannelError,
> {
    match r {
        Ok(l) => Ok(l@),
        Err(e) => Err(e),
    }
}

/// A resolution at its start.
pub open spec fn initial(
    topics: Seq<Seq<char>>,
    primary: OffsetPolicy,
    fallback: OffsetPolicy,
) -> ResolverView {
    ResolverView {
        topics: distinct(topics),
        primary,
        fallback,
        phase: if distinct(topics).len() == 0 {
            Phase::Primary
        } else {
            Phase::Discovering
        },
        counts: Seq::empty(),
        answer: Seq::empty(),
    }
}

/// The first action of a resolution: the metadata of the first topic, or, without topics,
/// the query of an empty list.
pub open spec fn first_action(v: ResolverView) -> ActionView {
    if v.topics.len() == 0 {
        ActionView::Query(Seq::empty())
    } else {
        ActionView::FetchMetadata(v.topics[0])
    }
}

/// The resolution after the metadata of the next topic came in.
pub open spec fn after_metadata(pre: ResolverView, result: Result<i32, String>) -> ResolverView {
    match result {
        Err(_) => ResolverView { phase: Phase::Finished, ..pre },
        Ok(count) => ResolverView {
            counts: pre.counts.push(count),
            phase: if pre.counts.len() + 1 < pre.topics.len() {
                Phase::Discovering
            } else {
                Phase::Primary
            },
            ..pre
        },
    }
}

/// The action that follows the metadata of the next topic: the failure, the next topic, or
/// the query of all partitions at the primary policy.
pub open spec fn metadata_action(pre: ResolverView, result: Result<i32, String>) -> ActionView {
    match result {
        Err(msg) => ActionView::Done(Err(ResolutionError::Metadata(msg))),
        Ok(count) => if pre.counts.len() + 1 < pre.topics.len() {
            ActionView::FetchMetadata(pre.topics[pre.counts.len() as int + 1])
        } else {
            ActionView::Query(request_for(pre.topics, pre.counts.push(count), pre.primary))
        },
    }
}

/// The resolution after the broker's answer to a query came in.
pub open spec fn after_response(
    pre: ResolverView,
    result: Result<Seq<EntryView>, ChannelError>,
) -> ResolverView {
    match result {
        Err(_) => ResolverView { phase: Phase::Finished, ..pre },
        Ok(response) => if pre.phase == Phase::Primary {
            if needs_fallback(pre.primary, response) {
                ResolverView { phase: Phase::Fallback, answer: response, ..pre }
            } else {
                ResolverView { phase: Phase::Finished, ..pre }
            }
        } else {
            ResolverView { phase: Phase::Finished, answer: Seq::empty(), ..pre }
        },
    }
}

/// The action that follows the broker's answer: the failure; after the primary query the
/// answer itself, or the query of all partitions at the fallback policy; after the fallback
/// query the primary answer patched.
pub open spec fn response_action(
    pre: ResolverView,
    result: Result<Seq<EntryView>, ChannelError>,
) -> ActionView {
    match result {
        Err(e) => ActionView::Done(Err(ResolutionError::Channel(e))),
        Ok(response) => if pre.phase == Phase::Primary {
            if needs_fallback(pre.primary, response) {
                ActionView::Query(
                    uniform(request_for(pre.topics, pre.counts, pre.primary), pre.fallback),
                )
            } else {
                ActionView::Done(Ok(response))
            }
        } else {
            ActionView::Done(Ok(patched(pre.answer, response)))
        },
    }
}

/// One resolution: it decides, from what the broker has answered so far, what is asked next.
/// The caller performs each action and reports what came back.
#[derive(Debug)]
pub struct Resolver {
    topics: Vec<String>,
    primary: OffsetPolicy,
    fallback: OffsetPolicy,
    phase: Phase,
    counts: Vec<i32>,
    request: PartitionOffsetList,
    answer: PartitionOffsetList,
}

impl View for Resolver {
    type V = ResolverView;

    closed spec fn view(&self) -> ResolverView {
        ResolverView {
            topics: names(self.topics@),
            primary: self.primary,
            fallback: self.fallback,
            phase: self.phase,
            counts: self.counts@,
            answer: self.answer@,
        }
    }
}

impl Resolver {
    /// The resolver's invariant.
    pub closed spec fn wf(&self) -> bool {
        &&& valid(self@)
        &&& self.request.wf()
        &&& self.request@ == request_for(names(self.topics@), self.counts@, self.primary)
    }

    /// What the invariant says of the resolver's value.
    pub proof fn lemma_valid(&self)
        requires
            self.wf(),
        ensures
            valid(self@),
    {
    }

    /// Starts a resolution of `topics`, a topic named twice counting once.
    pub fn new(topics: &Vec<String>, primary: OffsetPolicy, fallback: OffsetPolicy) -> (r: (
        Resolver,
        Action,
    ))
        ensures
            r.0.wf(),
            r.1.wf(),
            r.0@ == initial(names(topics@), primary, fallback),
            r.1@ == first_action(r.0@),
    {
        let unique = unique_topics(topics);
        proof {
            lemma_distinct(names(topics@));
        }
        let none = unique.len() == 0;
        let action = if none {
            Action::Query(PartitionOffsetList::new())
        } else {
            Action::FetchMetadata(unique[0].clone())
        };
        let resolver = Resolver {
            topics: unique,
            primary,
            fallback,
            phase: if none {
                Phase::Primary
            } else {
                Phase::Discovering
            },
            counts: Vec::new(),
            request: PartitionOffsetList::new(),
            answer: PartitionOffsetList::new(),
        };
        (resolver, action)
    }

    /// Where the resolution stands.
    pub fn phase(&self) -> (p: Phase)
        ensures
            p == self@.phase,
    {
        self.phase
    }

    /// Takes the partition count of the topic last asked for, or the failure of the fetch.
    /// A failure ends the resolution. A count adds the topic's partitions to the request;
    /// after the last topic the request is sent out at the primary policy.
    pub fn on_metadata(&mut self, result: Result<i32, String>) -> (action: Action)
        requires
            old(self).wf(),
            old(self)@.phase == Phase::Discovering,
        ensures
            final(self).wf(),
            action.wf(),
            final(self)@ == after_metadata(old(self)@, result),
            action@ == metadata_action(old(self)@, result),
    {
        match result {
            Err(msg) => {
                self.phase = Phase::Finished;
                Action::Done(Err(ResolutionError::Metadata(msg)))
            },
            Ok(count) => {
                let k = self.counts.len();
                let ghost topics = names(self.topics@);
                proof {
                    lemma_request_complete(topics, self.counts@, self.primary);
                    if mentions(self.request@, topics[k as int]) {
                        let j = choose|j: int|
                            0 <= j < self.counts@.len() && topics[j] == topics[k as int]
                                && self.counts@[j] > 0;
                        assert(false);
                    }
                }
                let topic = self.topics[k].clone();
                add_topic_partitions(&mut self.request, &topic, count, self.primary);
                self.counts.push(count);
                proof {
                    assert(self.counts@.drop_last() =~= old(self).counts@);
                    lemma_request_complete(topics, self.counts@, self.primary);
                }
                let next = self.counts.len();
                if next < self.topics.len() {
                    Action::FetchMetadata(self.topics[next].clone())
                } else {
                    self.phase = Phase::Primary;
                    let list = self.request.with_policy(self.primary);
                    proof {
                        assert(list@ =~= self.request@);
                    }
                    Action::Query(list)
                }
            },
        }
    }

    /// Takes the broker's answer to the query last sent out, or the failure of the query.
    /// A failure ends the resolution, whichever query it was.
    pub fn on_response(&mut self, result: Result<PartitionOffsetList, ChannelError>) -> (action:
        Action)
        requires
            old(self).wf(),
            old(self)@.phase == Phase::Primary || old(self)@.phase == Phase::Fallback,
            result is Ok ==> result->Ok_0.wf(),
        ensures
            final(self).wf(),
            action.wf(),
            final(self)@ == after_response(old(self)@, response_view(result)),
            action@ == response_action(old(self)@, response_view(result)),
    {
        match result {
            Err(e) => {
                self.phase = Phase::Finished;
                Action::Done(Err(ResolutionError::Channel(e)))
            },
            Ok(list) => {
                match self.phase {
                    Phase::Primary => {
                        if fallback_needed(self.primary, &list) {
                            self.phase = Phase::Fallback;
                            self.answer = list;
                            Action::Query(self.request.with_policy(self.fallback))
                        } else {
                            self.phase = Phase::Finished;
                            Action::Done(Ok(list))
                        }
                    },
                    _ => {
                        let mut held = PartitionOffsetList::new();
                        core::mem::swap(&mut self.answer, &mut held);
                        self.phase = Phase::Finished;
                        Action::Done(Ok(patch_invalid(held, &list)))
                    },
                }
            },
        }
    }
}

/// Where the primary answer holds an offset for every partition, the resolution ends with
/// that answer and sends no second query.
pub proof fn lemma_no_spurious_fallback(pre: ResolverView, response: Seq<EntryView>)
    requires
        pre.phase == Phase::Primary,
        forall|i: int| 0 <= i < response.len() ==> (#[trigger] response[i]).offset
            != OffsetPolicy::Invalid,
    ensures
        response_action(pre, Ok(response)) == ActionView::Done(Ok(response)),
        after_response(pre, Ok(response)).phase == Phase::Finished,
{
}

/// Under a primary policy that names no numeric position, the resolution ends with the
/// primary answer as it is, whatever it holds.
pub proof fn lemma_fallback_inapplicable(pre: ResolverView, response: Seq<EntryView>)
    requires
        pre.phase == Phase::Primary,
        !pre.primary.spec_is_specific(),
    ensures
        response_action(pre, Ok(response)) == ActionView::Done(Ok(response)),
        after_response(pre, Ok(response)).phase == Phase::Finished,
{
}

/// The map that a resolution ends with when both queries are answered: the primary answer,
/// patched from the fallback answer where a second query was owed.
pub open spec fn outcome(
    primary: OffsetPolicy,
    first: Seq<EntryView>,
    second: Seq<EntryView>,
) -> Seq<EntryView> {
    if needs_fallback(primary, first) {
        patched(first, second)
    } else {
        first
    }
}

/// What the two queries of a resolution come to, given the broker's answer to each: the
/// first failure; the primary answer where no second query is owed; else the primary
/// answer patched from the fallback answer.
pub open spec fn query_outcome(
    primary: OffsetPolicy,
    first: Result<Seq<EntryView>, ChannelError>,
    second: Result<Seq<EntryView>, ChannelError>,
) -> Result<Seq<EntryView>, ResolutionError> {
    match first {
        Err(e) => Err(ResolutionError::Channel(e)),
        Ok(a) => if needs_fallback(primary, a) {
            match second {
                Err(e) => Err(ResolutionError::Channel(e)),
                Ok(b) => Ok(patched(a, b)),
            }
        } else {
            Ok(a)
        },
    }
}

/// A resolution that has sent its primary query ends with `query_outcome`: at once where the
/// primary answer settles it, and else after exactly one more query, which asks for all
/// partitions of the request at the fallback policy.
pub proof fn lemma_queries_give_outcome(
    pre: ResolverView,
    first: Result<Seq<EntryView>, ChannelError>,
    second: Result<Seq<EntryView>, ChannelError>,
)
    requires
        pre.phase == Phase::Primary,
    ensures
        match response_action(pre, first) {
            ActionView::Done(r) => r == query_outcome(pre.primary, first, second)
                && after_response(pre, first).phase == Phase::Finished,
            ActionView::Query(l) => {
                let mid = after_response(pre, first);
                &&& l == uniform(request_for(pre.topics, pre.counts, pre.primary), pre.fallback)
                &&& mid.phase == Phase::Fallback
                &&& response_action(mid, second) == ActionView::Done(
                    query_outcome(pre.primary, first, second),
                )
                &&& after_response(mid, second).phase == Phase::Finished
            },
            ActionView::FetchMetadata(_) => false,
        },
{
}

/// Where the broker answers for exactly the partitions asked, the outcome holds one entry
/// for each announced partition: as many as the counts announce, and none twice.
pub proof fn lemma_outcome_complete(pre: ResolverView, first: Seq<EntryView>, second: Seq<EntryView>)
    requires
        valid(pre),
        pre.counts.len() == pre.topics.len(),
        keys_of(first) == keys_of(request_for(pre.topics, pre.counts, pre.primary)),
    ensures
        outcome(pre.primary, first, second).len() == total_partitions(pre.counts),
        distinct_keys(outcome(pre.primary, first, second)),
        keys_of(outcome(pre.primary, first, second)) == keys_of(
            request_for(pre.topics, pre.counts, pre.primary),
        ),
{
    let request = request_for(pre.topics, pre.counts, pre.primary);
    let out = outcome(pre.primary, first, second);
    lemma_request_complete(pre.topics, pre.counts, pre.primary);
    lemma_patch_is_targeted(first, second);
    assert(keys_of(out).len() == out.len());
    assert(keys_of(request).len() == request.len());
    assert forall|i: int, j: int| 0 <= i < j < out.len() implies (#[trigger] out[i]).key != (
    #[trigger] out[j]).key by {
        assert(keys_of(out)[i] == keys_of(request)[i]);
        assert(keys_of(out)[j] == keys_of(request)[j]);
        assert(request[i].key != request[j].key);
    }
}

/// What a resolution does next depends on nothing but its value and what is reported to it:
/// two resolutions of equal value that are told the same end up equal and ask the same.
pub proof fn lemma_repeatable(
    a: ResolverView,
    b: ResolverView,
    metadata: Result<i32, String>,
    response: Result<Seq<EntryView>, ChannelError>,
)
    requires
        a == b,
    ensures
        after_metadata(a, metadata) == after_metadata(b, metadata),
        metadata_action(a, metadata) == metadata_action(b, metadata),
        after_response(a, response) == after_response(b, response),
        response_action(a, response) == response_action(b, response),
{
}

} // verus!
