use vstd::prelude::*;
use vstd::string::StrSliceExecFns;
use rdkafka::error::KafkaError;
use rdkafka::topic_partition_list::{Offset, TopicPartitionList};
use crate::offsets::{has_key, EntryView, OffsetPolicy, PartitionOffsetList};

verus! {

/// The client's list of topics, partitions and offsets. Nothing inside it is visible here.
#[verifier::external_type_specification]
#[verifier::external_body]
pub struct ExTopicPartitionList(TopicPartitionList);

/// The client's error type. Nothing inside it is visible here.
#[verifier::external_type_specification]
#[verifier::external_body]
pub struct ExKafkaError(KafkaError);

/// The elements that a client list holds, in order: each with its topic, its partition and
/// its offset, where an offset that is neither the beginning, the end nor a position counts
/// as `Invalid`.
pub uninterp spec fn list_entries(tpl: TopicPartitionList) -> Seq<EntryView>;

/// Whether the client can store the offset: any but a negative position.
pub open spec fn representable(offset: OffsetPolicy) -> bool {
    match offset {
        OffsetPolicy::Specific(n) => n >= 0,
        _ => true,
    }
}

/// Whether the client can take the entry: its topic holds no NUL character and its offset
/// can be stored.
pub open spec fn sendable(e: EntryView) -> bool {
    !e.key.0.contains('\0') && representable(e.offset)
}

/// `TopicPartitionList::new`: an empty list.
#[verifier::external_body]
fn empty_client_list() -> (tpl: TopicPartitionList)
    ensures
        list_entries(tpl) == Seq::<EntryView>::empty(),
{
    TopicPartitionList::new()
}

/// `TopicPartitionList::add_partition_offset`, for a partition that the list does not hold
/// yet. The client first appends an element for the partition, with no offset, and then
/// stores the offset in the first element of that partition: so the new element gets the
/// offset, or, where the offset cannot be stored, stays without one and the call fails.
/// A topic with a NUL character, on which the client panics, is left out.
#[verifier::external_body]
fn client_list_add(
    tpl: &mut TopicPartitionList,
    topic: &str,
    partition: i32,
    offset: OffsetPolicy,
) -> (r: Result<(), KafkaError>)
    requires
        !topic@.contains('\0'),
        !has_key(list_entries(*old(tpl)), (topic@, partition as int)),
        list_entries(*old(tpl)).len() < i32::MAX,
    ensures
        r is Ok <==> representable(offset),
        list_entries(*final(tpl)) == list_entries(*old(tpl)).push(
            EntryView {
                key: (topic@, partition as int),
                offset: if representable(offset) {
                    offset
                } else {
                    OffsetPolicy::Invalid
                },
            },
        ),
{
    let o = match offset {
        OffsetPolicy::Earliest => Offset::Beginning,
        OffsetPolicy::Latest => Offset::End,
        OffsetPolicy::Specific(n) => Offset::Offset(n),
        OffsetPolicy::Invalid => Offset::Invalid,
    };
    tpl.add_partition_offset(topic, partition, o)
}

/// Why a list cannot be handed to the client.
#[derive(Clone, Copy, Debug, PartialEq, Eq, Structural)]
pub enum ListError {
    /// The list holds more entries than the client can count.
    TooLong,
    /// The topic of the entry at this place holds a NUL character.
    TopicHoldsNul(usize),
    /// The offset of the entry at this place is a negative position.
    OffsetNotRepresentable(usize),
}

/// Whether the text holds a NUL character.
pub fn holds_nul(s: &str) -> (r: bool)
    ensures
        r == s@.contains('\0'),
{
    let n = s.unicode_len();
    let mut i: usize = 0;
    while i < n
        invariant
            n == s@.len(),
            i <= n,
            forall|j: int| 0 <= j < i ==> s@[j] != '\0',
        decreases n - i,
    {
        if s.get_char(i) == '\0' {
            assert(s@[i as int] == '\0');
            return true;
        }
        i += 1;
    }
    false
}

/// Builds the client's list for a list of partitions, entry by entry in order. It fails at
/// the first entry that the client cannot take, and names that entry.
pub fn to_client_list(list: &PartitionOffsetList) -> (r: Result<TopicPartitionList, ListError>)
    requires
        list.wf(),
    ensures
        match r {
            Ok(tpl) => list@.len() <= i32::MAX && list_entries(tpl) == list@ && forall|j: int|
                0 <= j < list@.len() ==> sendable(#[trigger] list@[j]),
            Err(ListError::TooLong) => list@.len() > i32::MAX,
            Err(ListError::TopicHoldsNul(i)) => list@.len() <= i32::MAX && i < list@.len()
                && list@[i as int].key.0.contains('\0') && forall|j: int|
                0 <= j < i ==> sendable(#[trigger] list@[j]),
            Err(ListError::OffsetNotRepresentable(i)) => list@.len() <= i32::MAX && i
                < list@.len() && !list@[i as int].key.0.contains('\0') && !representable(
                list@[i as int].offset,
            ) && forall|j: int| 0 <= j < i ==> sendable(#[trigger] list@[j]),
        },
{
    let n = list.len();
    if n > 2147483647 {
        return Err(ListError::TooLong);
    }
    let mut tpl = empty_client_list();
    let mut i: usize = 0;
    proof {
        assert(list@.take(0) =~= Seq::<EntryView>::empty());
    }
    while i < n
        invariant
            list.wf(),
            n == list@.len(),
            n <= i32::MAX,
            i <= n,
            list_entries(tpl) == list@.take(i as int),
            forall|j: int| 0 <= j < i ==> sendable(#[trigger] list@[j]),
        decreases n - i,
    {
        let topic = list.topic(i).as_str();
        if holds_nul(topic) {
            return Err(ListError::TopicHoldsNul(i));
        }
        proof {
            let key = list@[i as int].key;
            let before = list@.take(i as int);
            if has_key(before, key) {
                let j = choose|j: int| 0 <= j < before.len() && (#[trigger] before[j]).key == key;
                assert(before[j] == list@[j]);
                assert(false);
            }
        }
        let added = client_list_add(&mut tpl, topic, list.partition(i), list.offset(i));
        if added.is_err() {
            return Err(ListError::OffsetNotRepresentable(i));
        }
        proof {
            assert(list@.take(i as int + 1) =~= list@.take(i as int).push(list@[i as int]));
        }
        i += 1;
    }
    proof {
        assert(list@.take(n as int) =~= list@);
    }
    Ok(tpl)
}

} // verus!
