use tvm_devirt::diag::{
    begin, charge, excluded_time, is_on, measure, record_diverged, record_split, record_stop,
    set_pass, take, Collector, DivergedDiag, SplitDiag, StopDiag,
};

fn split(site: u64) -> SplitDiag {
    SplitDiag { entry: 99, pass: 77, handler: 0x10, site, ..Default::default() }
}

#[test]
fn records_are_stamped_with_the_function_and_pass() {
    let mut c = Collector::new();
    begin(&mut c, 0x1400);
    assert!(is_on(&c));
    record_split(&mut c, split(1));
    set_pass(&mut c, 2);
    record_split(&mut c, split(2));
    record_stop(&mut c, StopDiag { stop: "Budget".into(), ..Default::default() });
    record_diverged(&mut c, DivergedDiag { nodes: 7, ..Default::default() });
    let sink = take(&mut c);
    assert_eq!(sink.final_pass, 2);
    assert_eq!(sink.splits.len(), 2);
    assert_eq!((sink.splits[0].entry, sink.splits[0].pass, sink.splits[0].site), (0x1400, 0, 1));
    assert_eq!((sink.splits[1].entry, sink.splits[1].pass, sink.splits[1].site), (0x1400, 2, 2));
    assert_eq!(sink.stops.len(), 1);
    assert_eq!((sink.stops[0].entry, sink.stops[0].pass, sink.stops[0].stop.as_str()), (0x1400, 2, "Budget"));
    assert_eq!((sink.diverged[0].entry, sink.diverged[0].pass, sink.diverged[0].nodes), (0x1400, 2, 7));
}

#[test]
fn nothing_is_recorded_while_collection_is_off() {
    let mut c = Collector::new();
    assert!(!is_on(&c));
    record_split(&mut c, split(1));
    record_stop(&mut c, StopDiag::default());
    record_diverged(&mut c, DivergedDiag::default());
    charge(&mut c, 50);
    assert_eq!(excluded_time(&c), 0);
    let sink = take(&mut c);
    assert!(sink.splits.is_empty() && sink.stops.is_empty() && sink.diverged.is_empty());
}

#[test]
fn take_stops_collection_until_the_next_begin() {
    let mut c = Collector::new();
    begin(&mut c, 1);
    record_split(&mut c, split(1));
    let first = take(&mut c);
    assert_eq!(first.splits.len(), 1);
    assert!(!is_on(&c));
    record_split(&mut c, split(2));
    let second = take(&mut c);
    assert!(second.splits.is_empty());
    begin(&mut c, 2);
    record_split(&mut c, split(3));
    let third = take(&mut c);
    assert_eq!(third.splits.len(), 1);
    assert_eq!(third.splits[0].entry, 2);
}

#[test]
fn begin_discards_what_a_previous_function_left() {
    let mut c = Collector::new();
    begin(&mut c, 1);
    set_pass(&mut c, 3);
    record_split(&mut c, split(1));
    charge(&mut c, 10);
    begin(&mut c, 2);
    assert_eq!(excluded_time(&c), 0);
    let sink = take(&mut c);
    assert!(sink.splits.is_empty());
    assert_eq!(sink.final_pass, 0);
}

#[test]
fn excluded_time_is_per_pass_and_only_while_on() {
    let mut c = Collector::new();
    begin(&mut c, 1);
    charge(&mut c, 10);
    charge(&mut c, 5);
    assert_eq!(excluded_time(&c), 15);
    charge(&mut c, u128::MAX);
    assert_eq!(excluded_time(&c), u128::MAX);
    set_pass(&mut c, 2);
    assert_eq!(excluded_time(&c), 0);
    charge(&mut c, 4);
    assert_eq!(excluded_time(&c), 4);
    let _ = take(&mut c);
    assert_eq!(excluded_time(&c), 0);
}

#[test]
fn measure_hands_back_the_work_and_charges_only_while_on() {
    let mut c = Collector::new();
    let v = measure(&mut c, || {
        spin_for_two_millis();
        41 + 1
    });
    assert_eq!(v, 42);
    assert_eq!(excluded_time(&c), 0);
    begin(&mut c, 1);
    let s = measure(&mut c, || {
        spin_for_two_millis();
        String::from("done")
    });
    assert_eq!(s, "done");
    assert!(excluded_time(&c) >= 2_000_000);
}

fn spin_for_two_millis() {
    let started = std::time::Instant::now();
    while started.elapsed() < std::time::Duration::from_millis(2) {}
}
