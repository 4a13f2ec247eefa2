use kafka_admin::channel::{interpret, ChannelError};
use kafka_admin::machine::{Action, Phase, Resolver};
use kafka_admin::offsets::{OffsetPolicy, PartitionOffsetList};
use kafka_admin::resolver::{
    add_topic_partitions, fallback_needed, patch_invalid, unique_topics, ResolutionError,
};

fn listed(list: &PartitionOffsetList) -> Vec<(String, i32, OffsetPolicy)> {
    let mut out = Vec::new();
    for i in 0..list.len() {
        out.push((list.topic(i).clone(), list.partition(i), list.offset(i)));
    }
    out
}

fn list_of(items: &[(&str, i32, OffsetPolicy)]) -> PartitionOffsetList {
    let mut list = PartitionOffsetList::new();
    for (t, p, o) in items {
        assert!(list.insert(t.to_string(), *p, *o));
    }
    list
}

fn expect_query(action: Action) -> PartitionOffsetList {
    match action {
        Action::Query(list) => list,
        other => panic!("expected a query, got {:?}", other),
    }
}

fn expect_done(action: Action) -> Result<PartitionOffsetList, ResolutionError> {
    match action {
        Action::Done(r) => r,
        other => panic!("expected the outcome, got {:?}", other),
    }
}

fn orders_at(resolver: &mut Resolver, first: Action, count: i32) -> PartitionOffsetList {
    match first {
        Action::FetchMetadata(t) => assert_eq!(t, "orders"),
        other => panic!("expected a metadata fetch, got {:?}", other),
    }
    assert_eq!(resolver.phase(), Phase::Discovering);
    expect_query(resolver.on_metadata(Ok(count)))
}

#[test]
fn fallback_patches_the_invalid_partition() {
    let topics = vec!["orders".to_string()];
    let (mut r, first) = Resolver::new(&topics, OffsetPolicy::Specific(100), OffsetPolicy::Latest);
    let request = orders_at(&mut r, first, 4);
    assert_eq!(
        listed(&request),
        vec![
            ("orders".to_string(), 0, OffsetPolicy::Specific(100)),
            ("orders".to_string(), 1, OffsetPolicy::Specific(100)),
            ("orders".to_string(), 2, OffsetPolicy::Specific(100)),
            ("orders".to_string(), 3, OffsetPolicy::Specific(100)),
        ]
    );
    assert_eq!(r.phase(), Phase::Primary);
    let answer = list_of(&[
        ("orders", 0, OffsetPolicy::Specific(100)),
        ("orders", 1, OffsetPolicy::Specific(100)),
        ("orders", 2, OffsetPolicy::Invalid),
        ("orders", 3, OffsetPolicy::Specific(100)),
    ]);
    let second = expect_query(r.on_response(Ok(answer)));
    assert_eq!(r.phase(), Phase::Fallback);
    assert_eq!(
        listed(&second),
        vec![
            ("orders".to_string(), 0, OffsetPolicy::Latest),
            ("orders".to_string(), 1, OffsetPolicy::Latest),
            ("orders".to_string(), 2, OffsetPolicy::Latest),
            ("orders".to_string(), 3, OffsetPolicy::Latest),
        ]
    );
    let fallback = list_of(&[
        ("orders", 0, OffsetPolicy::Specific(40)),
        ("orders", 1, OffsetPolicy::Specific(41)),
        ("orders", 2, OffsetPolicy::Specific(42)),
        ("orders", 3, OffsetPolicy::Specific(43)),
    ]);
    let map = expect_done(r.on_response(Ok(fallback))).unwrap();
    assert_eq!(r.phase(), Phase::Finished);
    assert_eq!(
        listed(&map),
        vec![
            ("orders".to_string(), 0, OffsetPolicy::Specific(100)),
            ("orders".to_string(), 1, OffsetPolicy::Specific(100)),
            ("orders".to_string(), 2, OffsetPolicy::Specific(42)),
            ("orders".to_string(), 3, OffsetPolicy::Specific(100)),
        ]
    );
}

#[test]
fn topic_without_partitions_contributes_nothing() {
    let topics = vec!["empty-topic".to_string(), "orders".to_string()];
    let (mut r, first) = Resolver::new(&topics, OffsetPolicy::Earliest, OffsetPolicy::Latest);
    match first {
        Action::FetchMetadata(t) => assert_eq!(t, "empty-topic"),
        other => panic!("expected a metadata fetch, got {:?}", other),
    }
    match r.on_metadata(Ok(0)) {
        Action::FetchMetadata(t) => assert_eq!(t, "orders"),
        other => panic!("expected a metadata fetch, got {:?}", other),
    }
    let request = expect_query(r.on_metadata(Ok(2)));
    assert_eq!(
        listed(&request),
        vec![
            ("orders".to_string(), 0, OffsetPolicy::Earliest),
            ("orders".to_string(), 1, OffsetPolicy::Earliest),
        ]
    );
}

#[test]
fn only_an_empty_topic_gives_an_empty_map() {
    let topics = vec!["empty-topic".to_string()];
    let (mut r, _first) = Resolver::new(&topics, OffsetPolicy::Latest, OffsetPolicy::Latest);
    let request = expect_query(r.on_metadata(Ok(0)));
    assert_eq!(request.len(), 0);
    let map = expect_done(r.on_response(Ok(PartitionOffsetList::new()))).unwrap();
    assert_eq!(map.len(), 0);
}

#[test]
fn no_topics_query_an_empty_list() {
    let topics: Vec<String> = Vec::new();
    let (r, first) = Resolver::new(&topics, OffsetPolicy::Latest, OffsetPolicy::Latest);
    assert_eq!(r.phase(), Phase::Primary);
    assert_eq!(expect_query(first).len(), 0);
}

#[test]
fn timeout_ends_the_resolution_without_a_map() {
    let topics = vec!["orders".to_string()];
    let (mut r, first) = Resolver::new(&topics, OffsetPolicy::Specific(100), OffsetPolicy::Latest);
    let _ = orders_at(&mut r, first, 4);
    match expect_done(r.on_response(interpret(None))) {
        Err(ResolutionError::Channel(ChannelError::Timeout)) => {}
        other => panic!("expected a timeout, got {:?}", other),
    }
    assert_eq!(r.phase(), Phase::Finished);
}

#[test]
fn failure_of_the_fallback_query_discards_the_primary_answer() {
    let topics = vec!["orders".to_string()];
    let (mut r, first) = Resolver::new(&topics, OffsetPolicy::Specific(7), OffsetPolicy::Earliest);
    let _ = orders_at(&mut r, first, 2);
    let answer = list_of(&[
        ("orders", 0, OffsetPolicy::Invalid),
        ("orders", 1, OffsetPolicy::Specific(7)),
    ]);
    let _ = expect_query(r.on_response(Ok(answer)));
    match expect_done(r.on_response(Err(ChannelError::BrokerError("denied".to_string())))) {
        Err(ResolutionError::Channel(ChannelError::BrokerError(m))) => assert_eq!(m, "denied"),
        other => panic!("expected the broker's error, got {:?}", other),
    }
}

#[test]
fn metadata_failure_ends_the_resolution() {
    let topics = vec!["a".to_string(), "b".to_string()];
    let (mut r, _first) = Resolver::new(&topics, OffsetPolicy::Latest, OffsetPolicy::Latest);
    let _ = r.on_metadata(Ok(3));
    match expect_done(r.on_metadata(Err("unreachable".to_string()))) {
        Err(ResolutionError::Metadata(m)) => assert_eq!(m, "unreachable"),
        other => panic!("expected the metadata error, got {:?}", other),
    }
    assert_eq!(r.phase(), Phase::Finished);
}

#[test]
fn valid_primary_answer_sends_no_second_query() {
    let topics = vec!["orders".to_string()];
    let (mut r, first) = Resolver::new(&topics, OffsetPolicy::Specific(5), OffsetPolicy::Latest);
    let _ = orders_at(&mut r, first, 2);
    let answer = list_of(&[
        ("orders", 0, OffsetPolicy::Specific(5)),
        ("orders", 1, OffsetPolicy::Specific(5)),
    ]);
    let map = expect_done(r.on_response(Ok(answer))).unwrap();
    assert_eq!(
        listed(&map),
        vec![
            ("orders".to_string(), 0, OffsetPolicy::Specific(5)),
            ("orders".to_string(), 1, OffsetPolicy::Specific(5)),
        ]
    );
    assert_eq!(r.phase(), Phase::Finished);
}

#[test]
fn earliest_and_latest_never_fall_back() {
    for policy in [OffsetPolicy::Earliest, OffsetPolicy::Latest] {
        let topics = vec!["orders".to_string()];
        let (mut r, first) = Resolver::new(&topics, policy, OffsetPolicy::Specific(1));
        let _ = orders_at(&mut r, first, 3);
        let answer = list_of(&[
            ("orders", 0, OffsetPolicy::Invalid),
            ("orders", 1, OffsetPolicy::Invalid),
            ("orders", 2, OffsetPolicy::Invalid),
        ]);
        let map = expect_done(r.on_response(Ok(answer))).unwrap();
        assert_eq!(
            listed(&map),
            vec![
                ("orders".to_string(), 0, OffsetPolicy::Invalid),
                ("orders".to_string(), 1, OffsetPolicy::Invalid),
                ("orders".to_string(), 2, OffsetPolicy::Invalid),
            ]
        );
    }
}

#[test]
fn patch_changes_only_the_invalid_entries() {
    let first = list_of(&[
        ("t", 0, OffsetPolicy::Specific(100)),
        ("t", 1, OffsetPolicy::Specific(100)),
        ("t", 2, OffsetPolicy::Invalid),
        ("t", 3, OffsetPolicy::Specific(100)),
        ("t", 4, OffsetPolicy::Specific(100)),
        ("t", 5, OffsetPolicy::Invalid),
    ]);
    let second = list_of(&[
        ("t", 5, OffsetPolicy::Specific(55)),
        ("t", 0, OffsetPolicy::Specific(50)),
        ("t", 2, OffsetPolicy::Specific(52)),
    ]);
    let out = patch_invalid(first, &second);
    assert_eq!(
        listed(&out),
        vec![
            ("t".to_string(), 0, OffsetPolicy::Specific(100)),
            ("t".to_string(), 1, OffsetPolicy::Specific(100)),
            ("t".to_string(), 2, OffsetPolicy::Specific(52)),
            ("t".to_string(), 3, OffsetPolicy::Specific(100)),
            ("t".to_string(), 4, OffsetPolicy::Specific(100)),
            ("t".to_string(), 5, OffsetPolicy::Specific(55)),
        ]
    );
}

#[test]
fn partition_absent_from_the_fallback_stays_invalid() {
    let first = list_of(&[("t", 0, OffsetPolicy::Invalid), ("u", 0, OffsetPolicy::Invalid)]);
    let second = list_of(&[("u", 0, OffsetPolicy::Specific(9)), ("t", 1, OffsetPolicy::Specific(3))]);
    let out = patch_invalid(first, &second);
    assert_eq!(
        listed(&out),
        vec![
            ("t".to_string(), 0, OffsetPolicy::Invalid),
            ("u".to_string(), 0, OffsetPolicy::Specific(9)),
        ]
    );
}

#[test]
fn fallback_is_needed_only_for_a_numeric_policy_with_an_invalid_entry() {
    let bad = list_of(&[("t", 0, OffsetPolicy::Invalid)]);
    let good = list_of(&[("t", 0, OffsetPolicy::Specific(1))]);
    assert!(fallback_needed(OffsetPolicy::Specific(1), &bad));
    assert!(!fallback_needed(OffsetPolicy::Specific(1), &good));
    assert!(!fallback_needed(OffsetPolicy::Earliest, &bad));
    assert!(!fallback_needed(OffsetPolicy::Latest, &bad));
    assert!(!fallback_needed(OffsetPolicy::Invalid, &bad));
}

#[test]
fn request_holds_every_partition_once() {
    let topics = vec!["a".to_string(), "b".to_string(), "a".to_string(), "c".to_string()];
    let (mut r, _first) = Resolver::new(&topics, OffsetPolicy::Latest, OffsetPolicy::Latest);
    let _ = r.on_metadata(Ok(2));
    let _ = r.on_metadata(Ok(0));
    let request = expect_query(r.on_metadata(Ok(3)));
    assert_eq!(
        listed(&request),
        vec![
            ("a".to_string(), 0, OffsetPolicy::Latest),
            ("a".to_string(), 1, OffsetPolicy::Latest),
            ("c".to_string(), 0, OffsetPolicy::Latest),
            ("c".to_string(), 1, OffsetPolicy::Latest),
            ("c".to_string(), 2, OffsetPolicy::Latest),
        ]
    );
}

#[test]
fn same_inputs_give_the_same_map() {
    let mut maps = Vec::new();
    for _ in 0..2 {
        let topics = vec!["orders".to_string()];
        let (mut r, first) = Resolver::new(&topics, OffsetPolicy::Specific(3), OffsetPolicy::Latest);
        let _ = orders_at(&mut r, first, 2);
        let answer = list_of(&[
            ("orders", 0, OffsetPolicy::Invalid),
            ("orders", 1, OffsetPolicy::Specific(3)),
        ]);
        let _ = expect_query(r.on_response(Ok(answer)));
        let fallback = list_of(&[
            ("orders", 0, OffsetPolicy::Specific(8)),
            ("orders", 1, OffsetPolicy::Specific(8)),
        ]);
        maps.push(listed(&expect_done(r.on_response(Ok(fallback))).unwrap()));
    }
    assert_eq!(maps[0], maps[1]);
    assert_eq!(
        maps[0],
        vec![
            ("orders".to_string(), 0, OffsetPolicy::Specific(8)),
            ("orders".to_string(), 1, OffsetPolicy::Specific(3)),
        ]
    );
}

#[test]
fn topics_are_taken_once_in_order_of_first_occurrence() {
    let topics = vec!["b".to_string(), "a".to_string(), "b".to_string(), "a".to_string()];
    assert_eq!(unique_topics(&topics), vec!["b".to_string(), "a".to_string()]);
    assert_eq!(unique_topics(&Vec::new()), Vec::<String>::new());
}

#[test]
fn negative_count_adds_no_partition() {
    let mut list = PartitionOffsetList::new();
    add_topic_partitions(&mut list, &"t".to_string(), -3, OffsetPolicy::Latest);
    assert_eq!(list.len(), 0);
    add_topic_partitions(&mut list, &"t".to_string(), 1, OffsetPolicy::Latest);
    assert_eq!(listed(&list), vec![("t".to_string(), 0, OffsetPolicy::Latest)]);
}
