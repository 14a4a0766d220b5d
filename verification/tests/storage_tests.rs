use gossip_node::storage::Storage;

fn sorted(mut v: Vec<u64>) -> Vec<u64> {
    v.sort();
    v
}

#[test]
fn add_message_keeps_value() {
    let mut st = Storage::new();
    st.add_message(5);
    assert_eq!(st.get_messages(), vec![5]);
}

#[test]
fn add_message_is_idempotent() {
    let mut st = Storage::new();
    st.add_message(5);
    let once = sorted(st.get_messages());
    st.add_message(5);
    let twice = sorted(st.get_messages());
    assert_eq!(once, twice);
    assert_eq!(twice, vec![5]);
}

#[test]
fn add_messages_merges_and_records_received() {
    let mut st = Storage::new();
    st.add_message(1);
    st.add_messages(vec![7, 8, 7], "n2".to_string());
    assert_eq!(sorted(st.get_messages()), vec![1, 7, 8]);
    // What n2 sent us is no longer outstanding for n2.
    assert_eq!(sorted(st.get_messages_for_node("n2".to_string())), vec![1]);
    // For another neighbour everything is outstanding.
    assert_eq!(sorted(st.get_messages_for_node("n3".to_string())), vec![1, 7, 8]);
}

#[test]
fn merge_is_order_insensitive() {
    let mut a = Storage::new();
    a.add_messages(vec![1, 2], "n2".to_string());
    a.add_messages(vec![2, 3], "n3".to_string());
    let mut b = Storage::new();
    b.add_messages(vec![2, 3], "n3".to_string());
    b.add_messages(vec![1, 2], "n2".to_string());
    assert_eq!(sorted(a.get_messages()), sorted(b.get_messages()));
    assert_eq!(sorted(a.get_messages()), vec![1, 2, 3]);
}

#[test]
fn sent_values_are_not_outstanding() {
    let mut st = Storage::new();
    st.add_message(7);
    st.add_message(8);
    st.add_message(9);
    st.add_to_sent_messages(vec![7, 8], "n2".to_string());
    assert_eq!(sorted(st.get_messages_for_node("n2".to_string())), vec![9]);
    assert_eq!(sorted(st.get_new_messages_for_neighbour("n2".to_string())), vec![9]);
}

#[test]
fn acknowledgment_of_unknown_values_is_ignored() {
    let mut st = Storage::new();
    st.add_message(7);
    // 99 was never accepted here, so the acknowledgment cannot mark it.
    st.add_to_sent_messages(vec![7, 99], "n2".to_string());
    assert_eq!(st.get_messages_for_node("n2".to_string()), Vec::<u64>::new());
    // Once 99 is accepted it is outstanding: the stale mark left no trace.
    st.add_message(99);
    assert_eq!(sorted(st.get_messages_for_node("n2".to_string())), vec![99]);
}

#[test]
fn retry_counter_steps() {
    let mut st = Storage::new();
    assert_eq!(st.get_retries("n2".to_string()), 0);
    st.increase_or_insert("n2".to_string());
    assert_eq!(st.get_retries("n2".to_string()), 1);
    st.increase_or_insert("n2".to_string());
    assert_eq!(st.get_retries("n2".to_string()), 2);
    st.decrease_or_remove("n2".to_string());
    assert_eq!(st.get_retries("n2".to_string()), 1);
    st.decrease_or_remove("n2".to_string());
    assert_eq!(st.get_retries("n2".to_string()), 0);
    // Stepping an absent counter down stays a no-op.
    st.decrease_or_remove("n2".to_string());
    assert_eq!(st.get_retries("n2".to_string()), 0);
    // Counters are independent per neighbour.
    st.increase_or_insert("n3".to_string());
    assert_eq!(st.get_retries("n2".to_string()), 0);
    assert_eq!(st.get_retries("n3".to_string()), 1);
}

#[test]
fn retry_counter_saturates() {
    let mut st = Storage::new();
    for _ in 0..300 {
        st.increase_or_insert("n2".to_string());
    }
    assert_eq!(st.get_retries("n2".to_string()), 255);
}

#[test]
fn ledger_only_grows() {
    let mut st = Storage::new();
    st.add_message(1);
    st.add_message(2);
    st.add_to_sent_messages(vec![1], "n2".to_string());
    let outstanding_before = sorted(st.get_messages_for_node("n2".to_string()));
    assert_eq!(outstanding_before, vec![2]);
    st.add_messages(vec![3], "n3".to_string());
    // Activity for n3 leaves n2's ledger alone: 1 stays marked.
    let after = sorted(st.get_messages_for_node("n2".to_string()));
    assert_eq!(after, vec![2, 3]);
    assert!(!after.contains(&1));
}
