use vstd::prelude::*;

verus! {

/// What a caller asks of a partition, or what the broker answered for it.
#[derive(Clone, Copy, Debug, PartialEq, Eq, Structural)]
pub enum OffsetPolicy {
    /// The first offset that the partition still holds.
    Earliest,
    /// The offset after the last record of the partition.
    Latest,
    /// One numeric position in the partition's log.
    Specific(i64),
    /// The broker could not determine an offset.
    Invalid,
}

impl OffsetPolicy {
    /// Whether this value is `Invalid`.
    pub fn is_invalid(&self) -> (r: bool)
        ensures
            r == (*self == OffsetPolicy::Invalid),
    {
        match self {
            OffsetPolicy::Invalid => true,
            _ => false,
        }
    }

    /// Whether this value names one numeric position.
    pub open spec fn spec_is_specific(&self) -> bool {
        match *self {
            OffsetPolicy::Specific(_) => true,
            _ => false,
        }
    }

    /// Whether this value names one numeric position.
    #[verifier::when_used_as_spec(spec_is_specific)]
    pub fn is_specific(&self) -> (r: bool)
        ensures
            r == self.spec_is_specific(),
    {
        match self {
            OffsetPolicy::Specific(_) => true,
            _ => false,
        }
    }
}

/// A partition of a topic.
#[derive(Debug)]
pub struct PartitionKey {
    pub topic: String,
    pub partition: i32,
}

/// The mathematical value of a key: the topic's characters and the partition's number.
pub type KeyView = (Seq<char>, int);

impl View for PartitionKey {
    type V = KeyView;

    open spec fn view(&self) -> KeyView {
        (self.topic@, self.partition as int)
    }
}

/// A partition together with its offset.
#[derive(Debug)]
pub struct PartitionEntry {
    pub key: PartitionKey,
    pub offset: OffsetPolicy,
}

/// The mathematical value of an entry.
pub struct EntryView {
    pub key: KeyView,
    pub offset: OffsetPolicy,
}

impl View for PartitionEntry {
    type V = EntryView;

    open spec fn view(&self) -> EntryView {
        EntryView { key: self.key@, offset: self.offset }
    }
}

/// Whether some entry of `s` has the key `key`.
pub open spec fn has_key(s: Seq<EntryView>, key: KeyView) -> bool {
    exists|i: int| 0 <= i < s.len() && (#[trigger] s[i]).key == key
}

/// Whether no key occurs twice in `s`.
pub open spec fn distinct_keys(s: Seq<EntryView>) -> bool {
    forall|i: int, j: int| 0 <= i < j < s.len() ==> (#[trigger] s[i]).key != (#[trigger] s[j]).key
}

/// The keys of `s`, in order.
pub open spec fn keys_of(s: Seq<EntryView>) -> Seq<KeyView> {
    Seq::new(s.len(), |i: int| s[i].key)
}

/// The entries of `s`, each with its offset replaced by `policy`.
pub open spec fn uniform(s: Seq<EntryView>, policy: OffsetPolicy) -> Seq<EntryView> {
    Seq::new(s.len(), |i: int| EntryView { key: s[i].key, offset: policy })
}

/// Whether some entry of `s` is `Invalid`.
pub open spec fn any_invalid(s: Seq<EntryView>) -> bool {
    exists|i: int| 0 <= i < s.len() && (#[trigger] s[i]).offset == OffsetPolicy::Invalid
}

/// The offset that `s` holds for `key`; `Invalid` where it holds none.
pub open spec fn lookup(s: Seq<EntryView>, key: KeyView) -> OffsetPolicy {
    if has_key(s, key) {
        s[choose|i: int| 0 <= i < s.len() && (#[trigger] s[i]).key == key].offset
    } else {
        OffsetPolicy::Invalid
    }
}

/// The same partitions as a map from key to offset.
pub open spec fn as_map(s: Seq<EntryView>) -> Map<KeyView, OffsetPolicy> {
    Map::new(|k: KeyView| has_key(s, k), |k: KeyView| lookup(s, k))
}

/// In a list without repeated keys, the entry at `i` is the one that `lookup` finds for its
/// key, and the one that the list's map holds for it.
pub proof fn lemma_lookup_at(s: Seq<EntryView>, i: int)
    requires
        distinct_keys(s),
        0 <= i < s.len(),
    ensures
        has_key(s, s[i].key),
        lookup(s, s[i].key) == s[i].offset,
        as_map(s).dom().contains(s[i].key),
        as_map(s)[s[i].key] == s[i].offset,
{
    let key = s[i].key;
    assert(has_key(s, key));
    let j = choose|j: int| 0 <= j < s.len() && (#[trigger] s[j]).key == key;
    assert(i == j);
}

/// An ordered list of partitions with their offsets, in which no partition occurs twice.
#[derive(Debug)]
pub struct PartitionOffsetList {
    entries: Vec<PartitionEntry>,
}

/// The outcome of a resolution: each partition with the offset found for it.
pub type ResolvedOffsetMap = PartitionOffsetList;

impl View for PartitionOffsetList {
    type V = Seq<EntryView>;

    closed spec fn view(&self) -> Seq<EntryView> {
        Seq::new(self.entries@.len(), |i: int| self.entries@[i]@)
    }
}

impl PartitionOffsetList {
    /// The list's invariant: no key occurs twice.
    pub open spec fn wf(&self) -> bool {
        distinct_keys(self@)
    }

    /// The empty list.
    pub fn new() -> (r: PartitionOffsetList)
        ensures
            r@ == Seq::<EntryView>::empty(),
            r.wf(),
    {
        let r = PartitionOffsetList { entries: Vec::new() };
        assert(r@ =~= Seq::<EntryView>::empty());
        r
    }

    /// The number of entries.
    pub fn len(&self) -> (n: usize)
        ensures
            n == self@.len(),
    {
        self.entries.len()
    }

    /// The topic of the entry at `i`.
    pub fn topic(&self, i: usize) -> (t: &String)
        requires
            i < self@.len(),
        ensures
            t@ == self@[i as int].key.0,
    {
        &self.entries[i].key.topic
    }

    /// The partition number of the entry at `i`.
    pub fn partition(&self, i: usize) -> (p: i32)
        requires
            i < self@.len(),
        ensures
            p == self@[i as int].key.1,
    {
        self.entries[i].key.partition
    }

    /// The offset of the entry at `i`.
    pub fn offset(&self, i: usize) -> (o: OffsetPolicy)
        requires
            i < self@.len(),
        ensures
            o == self@[i as int].offset,
    {
        self.entries[i].offset
    }

    /// The place of the entry for a partition, if the list has one.
    pub fn position(&self, topic: &String, partition: i32) -> (r: Option<usize>)
        ensures
            match r {
                Some(i) => i < self@.len() && self@[i as int].key == (topic@, partition as int)
                    && forall|j: int| 0 <= j < i ==> (#[trigger] self@[j]).key != (topic@, partition as int),
                None => !has_key(self@, (topic@, partition as int)),
            },
    {
        let mut i: usize = 0;
        while i < self.entries.len()
            invariant
                i <= self.entries@.len(),
                forall|j: int| 0 <= j < i ==> (#[trigger] self@[j]).key != (topic@, partition as int),
            decreases self.entries@.len() - i,
        {
            let e = &self.entries[i];
            if e.key.partition == partition && e.key.topic == *topic {
                return Some(i);
            }
            i += 1;
        }
        None
    }

    /// The offset held for a partition; `Invalid` where the list does not hold the partition.
    pub fn offset_of(&self, topic: &String, partition: i32) -> (o: OffsetPolicy)
        requires
            self.wf(),
        ensures
            o == lookup(self@, (topic@, partition as int)),
    {
        match self.position(topic, partition) {
            Some(i) => {
                proof {
                    lemma_lookup_at(self@, i as int);
                }
                self.entries[i].offset
            },
            None => OffsetPolicy::Invalid,
        }
    }

    /// Adds an entry at the end for a partition that the list does not hold yet.
    pub(crate) fn append(&mut self, topic: String, partition: i32, offset: OffsetPolicy)
        requires
            old(self).wf(),
            !has_key(old(self)@, (topic@, partition as int)),
        ensures
            final(self).wf(),
            final(self)@ == old(self)@.push(
                EntryView { key: (topic@, partition as int), offset: offset },
            ),
    {
        let entry = PartitionEntry { key: PartitionKey { topic, partition }, offset };
        self.entries.push(entry);
        assert(self@ =~= old(self)@.push(entry@));
    }

    /// Adds an entry at the end unless the list already holds the partition.
    /// Returns whether the entry was added.
    pub fn insert(&mut self, topic: String, partition: i32, offset: OffsetPolicy) -> (added: bool)
        requires
            old(self).wf(),
        ensures
            final(self).wf(),
            added == !has_key(old(self)@, (topic@, partition as int)),
            added ==> final(self)@ == old(self)@.push(
                EntryView { key: (topic@, partition as int), offset: offset },
            ),
            !added ==> final(self)@ == old(self)@,
    {
        match self.position(&topic, partition) {
            Some(_) => false,
            None => {
                self.append(topic, partition, offset);
                true
            },
        }
    }

    /// Replaces the offset of the entry at `i`.
    pub fn set_offset(&mut self, i: usize, offset: OffsetPolicy)
        requires
            old(self).wf(),
            i < old(self)@.len(),
        ensures
            final(self).wf(),
            final(self)@ == old(self)@.update(
                i as int,
                EntryView { key: old(self)@[i as int].key, offset: offset },
            ),
    {
        let topic = self.entries[i].key.topic.clone();
        let partition = self.entries[i].key.partition;
        let entry = PartitionEntry { key: PartitionKey { topic, partition }, offset };
        self.entries.set(i, entry);
        assert(self@ =~= old(self)@.update(i as int, entry@));
    }

    /// A list of the same partitions, each with the offset `policy`.
    pub fn with_policy(&self, policy: OffsetPolicy) -> (r: PartitionOffsetList)
        requires
            self.wf(),
        ensures
            r.wf(),
            r@ == uniform(self@, policy),
    {
        let mut out: Vec<PartitionEntry> = Vec::new();
        let mut i: usize = 0;
        while i < self.entries.len()
            invariant
                i <= self.entries@.len(),
                out@.len() == i,
                forall|j: int| 0 <= j < i ==> (#[trigger] out@[j])@ == uniform(self@, policy)[j],
            decreases self.entries@.len() - i,
        {
            let topic = self.entries[i].key.topic.clone();
            let partition = self.entries[i].key.partition;
            out.push(PartitionEntry { key: PartitionKey { topic, partition }, offset: policy });
            i += 1;
        }
        let r = PartitionOffsetList { entries: out };
        assert(r@ =~= uniform(self@, policy));
        r
    }

    /// Whether some entry is `Invalid`.
    pub fn has_invalid(&self) -> (r: bool)
        ensures
            r == any_invalid(self@),
    {
        let mut i: usize = 0;
        while i < self.entries.len()
            invariant
                i <= self.entries@.len(),
                forall|j: int| 0 <= j < i ==> (#[trigger] self@[j]).offset != OffsetPolicy::Invalid,
            decreases self.entries@.len() - i,
        {
            if self.entries[i].offset.is_invalid() {
                assert(self@[i as int].offset == OffsetPolicy::Invalid);
                return true;
            }
            i += 1;
        }
        false
    }
}

} // verus!
