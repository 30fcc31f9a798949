use kibitz::progress::{CompletedDepth, DepthTracker};
use kibitz::score::Score;
use kibitz::uci::{parse_info, InfoLine};

fn info(depth: u8, multipv: usize, cp: i32, mv: &str) -> InfoLine {
    parse_info(&format!(
        "info depth {depth} seldepth {depth} multipv {multipv} score cp {cp} \
         nodes 1000 nps 100000 time 1 pv {mv}"
    ))
    .expect("valid info line")
}

fn moves(closed: &CompletedDepth) -> Vec<&str> {
    closed.infos.iter().map(|i| i.pv[0].as_str()).collect()
}

#[test]
fn multipv_1_closes_one_depth_per_line() {
    let mut tracker = DepthTracker::new();

    assert_eq!(tracker.push(info(1, 1, 10, "e2e4")), None, "nothing is closed yet");

    let closed = tracker.push(info(2, 1, 20, "d2d4")).expect("depth 1 closed");
    assert_eq!(closed.depth, 1);
    assert_eq!(moves(&closed), ["e2e4"]);

    let closed = tracker.push(info(3, 1, 30, "g1f3")).expect("depth 2 closed");
    assert_eq!(closed.depth, 2);
    assert_eq!(moves(&closed), ["d2d4"]);

    let closed = tracker.flush().expect("depth 3 closed by the end of the search");
    assert_eq!(closed.depth, 3);
    assert_eq!(moves(&closed), ["g1f3"]);
    assert_eq!(tracker.flush(), None, "and there is nothing left");
}

#[test]
fn multipv_5_reports_one_event_per_depth() {
    let mut tracker = DepthTracker::new();
    let ranked = ["e2e4", "d2d4", "g1f3", "c2c4", "b1c3"];

    for (rank, mv) in ranked.iter().enumerate() {
        let closed = tracker.push(info(8, rank + 1, 50 - rank as i32 * 10, mv));
        assert_eq!(closed, None, "rank {rank} must not fire on its own");
    }

    let closed = tracker.push(info(9, 1, 55, "e2e4")).expect("depth 8 closed");
    assert_eq!(closed.depth, 8);
    assert_eq!(moves(&closed), ranked, "rank order is the output order");
}

#[test]
fn a_depth_with_fewer_lines_than_the_multipv_width_still_closes() {
    let mut tracker = DepthTracker::new();
    tracker.push(info(6, 1, 10, "h7h8"));
    tracker.push(info(6, 2, -50, "h7g8"));

    let closed = tracker.push(info(7, 1, 12, "h7h8")).expect("depth 6 closed");
    assert_eq!(moves(&closed), ["h7h8", "h7g8"], "two of a possible five");
}

#[test]
fn a_rank_reprinted_at_the_same_depth_replaces_the_earlier_line() {
    let mut tracker = DepthTracker::new();
    tracker.push(info(10, 1, 30, "e2e4"));
    assert_eq!(tracker.push(info(10, 1, 45, "d2d4")), None);

    let closed = tracker.push(info(11, 1, 44, "d2d4")).expect("depth 10 closed");
    assert_eq!(moves(&closed), ["d2d4"]);
    assert_eq!(closed.infos[0].score, Score::Cp(45));
}

#[test]
fn a_shallower_line_after_a_deeper_one_is_dropped() {
    let mut tracker = DepthTracker::new();
    tracker.push(info(9, 1, 30, "e2e4"));
    let closed = tracker.push(info(10, 1, 33, "e2e4")).expect("depth 9 closed");
    assert_eq!(closed.depth, 9);

    assert_eq!(tracker.push(info(9, 2, 10, "d2d4")), None);
    assert_eq!(tracker.push(info(8, 1, 5, "g1f3")), None);

    let closed = tracker.flush().expect("depth 10 is still what is buffered");
    assert_eq!(closed.depth, 10);
    assert_eq!(moves(&closed), ["e2e4"], "no straggler joined the set");
}

#[test]
fn a_tracker_that_saw_no_lines_closes_nothing() {
    let mut tracker = DepthTracker::new();
    assert_eq!(tracker.flush(), None);
    assert_eq!(tracker.flush(), None);
}

#[test]
fn ranks_arriving_out_of_order_come_out_in_rank_order() {
    let mut tracker = DepthTracker::new();
    tracker.push(info(4, 3, 1, "c2c4"));
    tracker.push(info(4, 1, 3, "e2e4"));
    tracker.push(info(4, 2, 2, "d2d4"));
    let closed = tracker.flush().expect("depth 4 closed");
    assert_eq!(moves(&closed), ["e2e4", "d2d4", "c2c4"]);
}
