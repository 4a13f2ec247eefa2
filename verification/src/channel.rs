use vstd::prelude::*;
use crate::offsets::{distinct_keys, has_key, EntryView, OffsetPolicy, PartitionOffsetList};

verus! {

/// How long a query waits for the broker's completion event, in milliseconds.
pub const QUERY_TIMEOUT_MS: i32 = 5000;

/// Why a query to the broker gave no list.
#[derive(Debug)]
pub enum ChannelError {
    /// No completion event arrived within the window.
    Timeout,
    /// The broker rejected the request; its message is kept.
    BrokerError(String),
    /// The event carried no readable result.
    MalformedResponse,
}

/// One per-partition result as the broker reports it.
#[derive(Debug)]
pub struct RawEntry {
    pub topic: String,
    pub partition: i32,
    pub offset: i64,
}

/// The mathematical value of a raw entry.
pub struct RawView {
    pub topic: Seq<char>,
    pub partition: i32,
    pub offset: i64,
}

impl View for RawEntry {
    type V = RawView;

    open spec fn view(&self) -> RawView {
        RawView { topic: self.topic@, partition: self.partition, offset: self.offset }
    }
}

/// The completion event of one query, as plain values.
#[derive(Debug)]
pub struct CompletionEvent {
    /// The broker's error message, where the event carries the error flag.
    pub error: Option<String>,
    /// The per-partition results, where they could be extracted.
    pub payload: Option<Vec<RawEntry>>,
}

/// The values of raw entries, in order.
pub open spec fn raw_views(raw: Seq<RawEntry>) -> Seq<RawView> {
    Seq::new(raw.len(), |i: int| raw[i]@)
}

/// What a raw entry stands for: nothing where its partition number is negative;
/// otherwise its offset where that is a position, and `Invalid` where the broker gave none.
pub open spec fn parsed(raw: RawView) -> Option<EntryView> {
    if raw.partition < 0 {
        None
    } else {
        Some(
            EntryView {
                key: (raw.topic, raw.partition as int),
                offset: if raw.offset >= 0 {
                    OffsetPolicy::Specific(raw.offset)
                } else {
                    OffsetPolicy::Invalid
                },
            },
        )
    }
}

/// The response list that raw entries give: each entry that parses, in order,
/// but for one whose partition an earlier entry already gave.
pub open spec fn collected(raw: Seq<RawView>) -> Seq<EntryView>
    decreases raw.len(),
{
    if raw.len() == 0 {
        Seq::empty()
    } else {
        let before = collected(raw.drop_last());
        match parsed(raw.last()) {
            Some(e) => if has_key(before, e.key) {
                before
            } else {
                before.push(e)
            },
            None => before,
        }
    }
}

/// A response never holds more entries than the broker reported, holds no partition twice,
/// and holds no entry but what one of the reported entries stands for.
pub proof fn lemma_collected_bounds(raw: Seq<RawView>)
    ensures
        collected(raw).len() <= raw.len(),
        distinct_keys(collected(raw)),
        forall|i: int|
            0 <= i < collected(raw).len() ==> exists|j: int|
                0 <= j < raw.len() && parsed(#[trigger] raw[j]) == Some(
                    #[trigger] collected(raw)[i],
                ),
    decreases raw.len(),
{
    if raw.len() > 0 {
        let front = raw.drop_last();
        lemma_collected_bounds(front);
        let before = collected(front);
        let all = collected(raw);
        assert forall|i: int| 0 <= i < all.len() implies exists|j: int|
            0 <= j < raw.len() && parsed(#[trigger] raw[j]) == Some(#[trigger] all[i]) by {
            if i < before.len() {
                assert(all[i] == before[i]);
                let j = choose|j: int|
                    0 <= j < front.len() && parsed(#[trigger] front[j]) == Some(before[i]);
                assert(raw[j] == front[j]);
            } else {
                assert(parsed(raw[raw.len() - 1]) == Some(all[i]));
            }
        }
    }
}

/// Builds the response list from the broker's per-partition results.
/// An entry that does not parse, or repeats a partition, is left out.
pub fn collect_entries(raw: &Vec<RawEntry>) -> (list: PartitionOffsetList)
    ensures
        list.wf(),
        list@ == collected(raw_views(raw@)),
{
    let mut list = PartitionOffsetList::new();
    let mut i: usize = 0;
    proof {
        assert(raw_views(raw@).take(0) =~= Seq::<RawView>::empty());
    }
    while i < raw.len()
        invariant
            i <= raw@.len(),
            list.wf(),
            list@ == collected(raw_views(raw@).take(i as int)),
        decreases raw@.len() - i,
    {
        let ghost prefix = raw_views(raw@).take(i as int + 1);
        proof {
            assert(prefix.drop_last() =~= raw_views(raw@).take(i as int));
            assert(prefix.last() == raw[i as int]@);
        }
        let r = &raw[i];
        if r.partition >= 0 {
            let offset = if r.offset >= 0 {
                OffsetPolicy::Specific(r.offset)
            } else {
                OffsetPolicy::Invalid
            };
            list.insert(r.topic.clone(), r.partition, offset);
        }
        i += 1;
    }
    proof {
        assert(raw_views(raw@).take(raw@.len() as int) =~= raw_views(raw@));
    }
    list
}

/// Turns the outcome of the wait for a completion event into the query's result.
pub fn interpret(event: Option<CompletionEvent>) -> (r: Result<PartitionOffsetList, ChannelError>)
    ensures
        match event {
            None => r == Err::<PartitionOffsetList, ChannelError>(ChannelError::Timeout),
            Some(ev) => match ev.error {
                Some(msg) => r == Err::<PartitionOffsetList, ChannelError>(
                    ChannelError::BrokerError(msg),
                ),
                None => match ev.payload {
                    None => r == Err::<PartitionOffsetList, ChannelError>(
                        ChannelError::MalformedResponse,
                    ),
                    Some(raw) => r is Ok && r->Ok_0.wf() && r->Ok_0@ == collected(
                        raw_views(raw@),
                    ),
                },
            },
        },
{
    match event {
        None => Err(ChannelError::Timeout),
        Some(ev) => match ev.error {
            Some(msg) => Err(ChannelError::BrokerError(msg)),
            None => match ev.payload {
                None => Err(ChannelError::MalformedResponse),
                Some(raw) => Ok(collect_entries(&raw)),
            },
        },
    }
}

} // verus!
