use dcp_node::window::SlidingWindow;

#[test]
fn test_sliding_window() {
    let mut window = SlidingWindow::new(256);

    let seq1 = window.send(b"Hello".to_vec());
    let seq2 = window.send(b"World".to_vec());

    assert_eq!(seq1, 0);
    assert_eq!(seq2, 1);

    let result1 = window.receive(1, b"World".to_vec());
    assert!(result1.is_none());

    let result2 = window.receive(0, b"Hello".to_vec());
    assert_eq!(result2, Some(b"HelloWorld".to_vec()));
}

#[test]
fn in_order_packets_are_delivered_one_by_one() {
    let mut w = SlidingWindow::new(4);
    assert_eq!(w.receive(0, vec![1]), Some(vec![1]));
    assert_eq!(w.receive(1, vec![2]), Some(vec![2]));
}

#[test]
fn duplicates_are_dropped() {
    let mut w = SlidingWindow::new(4);
    assert_eq!(w.receive(0, vec![1]), Some(vec![1]));
    assert_eq!(w.receive(0, vec![1]), None);
    assert_eq!(w.receive(1, vec![2]), Some(vec![2]));
}

#[test]
fn packets_beyond_the_window_are_dropped() {
    let mut w = SlidingWindow::new(4);
    assert_eq!(w.receive(4, vec![5]), None);
    assert_eq!(w.receive(3, vec![4]), None);
    assert_eq!(w.receive(0, vec![1]), Some(vec![1]));
    assert_eq!(w.receive(1, vec![2]), Some(vec![2]));
    assert_eq!(w.receive(2, vec![3]), Some(vec![3, 4]));
    // 4 was refused when it arrived, so it is still awaited
    assert_eq!(w.receive(5, vec![6]), None);
    assert_eq!(w.receive(4, vec![5]), Some(vec![5, 6]));
}

#[test]
fn a_gap_holds_back_later_packets() {
    let mut w = SlidingWindow::new(8);
    assert_eq!(w.receive(2, vec![3]), None);
    assert_eq!(w.receive(1, vec![2]), None);
    assert_eq!(w.receive(0, vec![1]), Some(vec![1, 2, 3]));
}

#[test]
fn timed_out_packets_are_sent_again_up_to_three_times() {
    let mut w = SlidingWindow::new(8);
    w.send_at(vec![1], 1_000);
    w.send_at(vec![2], 1_500);
    w.send_at(vec![3], 5_000);
    assert!(w.tick_at(1_999).is_empty());
    assert_eq!(w.pending_seqs(), vec![0, 1, 2]);
    let again = w.tick_at(2_600);
    assert_eq!(again, vec![(0, vec![1]), (1, vec![2])]);
    // resent packets stay queued, now timed from 2_600
    assert_eq!(w.pending_seqs(), vec![0, 1, 2]);
    assert!(w.tick_at(3_000).is_empty());
    assert_eq!(w.tick_at(3_600), vec![(0, vec![1]), (1, vec![2])]);
    assert_eq!(w.tick_at(6_000), vec![(0, vec![1]), (1, vec![2]), (2, vec![3])]);
    // 0 and 1 have now been resent three times: the next timeout gives them up
    assert_eq!(w.tick_at(7_000), vec![(2, vec![3])]);
    assert_eq!(w.pending_seqs(), vec![2]);
    w.ack(2);
    assert!(w.tick_at(9_000).is_empty());
    assert!(w.pending_seqs().is_empty());
}

#[test]
fn a_delivered_packet_is_dropped_later_too() {
    let mut w = SlidingWindow::new(8);
    assert_eq!(w.receive(0, vec![1]), Some(vec![1]));
    assert_eq!(w.receive(2, vec![3]), None);
    assert_eq!(w.receive(1, vec![2]), Some(vec![2, 3]));
    for _ in 0..3 {
        assert_eq!(w.receive(0, vec![1]), None);
        assert_eq!(w.receive(2, vec![3]), None);
    }
    assert_eq!(w.receive(3, vec![4]), Some(vec![4]));
}

#[test]
fn ack_removes_the_packet() {
    let mut w = SlidingWindow::new(8);
    w.send(vec![1]);
    w.send(vec![2]);
    w.send(vec![3]);
    w.ack(1);
    assert_eq!(w.pending_seqs(), vec![0, 2]);
    w.ack(9);
    assert_eq!(w.pending_seqs(), vec![0, 2]);
}

#[test]
fn reset_starts_over() {
    let mut w = SlidingWindow::new(8);
    w.send(vec![1]);
    w.receive(3, vec![4]);
    assert_eq!(w.receive(0, vec![1]), Some(vec![1]));
    w.reset();
    assert!(w.pending_seqs().is_empty());
    assert_eq!(w.send(vec![7]), 0);
    assert_eq!(w.receive(0, vec![9]), Some(vec![9]));
    assert_eq!(w.receive(1, vec![8]), Some(vec![8]));
}
