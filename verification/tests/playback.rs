use stella_app::playback::{LivePlayback, PlaybackLifecycle};

fn live(handle: i64, looping: bool) -> LivePlayback {
    LivePlayback {
        handle,
        looping,
        track: 0,
        finished: false,
    }
}

/// One block: retire, then (when started) mark what reached its end, then publish.
fn block(lifecycle: &mut PlaybackLifecycle, ended: &[i64]) {
    lifecycle.retire_finished();
    if !lifecycle.started() {
        return;
    }
    let indices: Vec<usize> = lifecycle
        .slots()
        .iter()
        .enumerate()
        .filter(|(_, slot)| ended.contains(&slot.handle))
        .map(|(index, _)| index)
        .collect();
    for index in indices {
        lifecycle.mark_finished(index);
    }
    lifecycle.publish_finished();
}

fn join(lifecycle: &mut PlaybackLifecycle, entries: &[LivePlayback], decoded: bool) -> (Vec<i64>, Vec<i64>) {
    let (mut transitions, missing) = lifecycle.reconcile(true, entries);
    for index in missing {
        lifecycle.accept_decoded(&mut transitions, entries, entries[index], decoded);
    }
    (transitions.finished, transitions.removed)
}

#[test]
fn an_ending_instance_is_reported_finished_one_block_before_removal() {
    let mut lifecycle = PlaybackLifecycle::new();
    let entries = [live(7, false)];
    assert_eq!(join(&mut lifecycle, &entries, true), (vec![], vec![]));
    block(&mut lifecycle, &[]);
    block(&mut lifecycle, &[7]);
    let (mut transitions, missing) = lifecycle.reconcile(true, &entries);
    assert_eq!(transitions.finished, vec![7]);
    assert!(transitions.removed.is_empty());
    assert!(missing.is_empty());
    assert_eq!(lifecycle.slots().len(), 1);
    assert!(lifecycle.slots()[0].finished);
    let _ = &mut transitions;

    block(&mut lifecycle, &[]);
    let (transitions, missing) = lifecycle.reconcile(true, &entries);
    assert!(transitions.finished.is_empty());
    assert_eq!(transitions.removed, vec![7]);
    // A removed instance is not decoded again although the script still lists it.
    assert!(missing.is_empty());
    assert!(lifecycle.slots().is_empty());
}

#[test]
fn a_stopped_output_retires_but_does_not_publish() {
    let mut lifecycle = PlaybackLifecycle::new();
    let entries = [LivePlayback {
        finished: true,
        ..live(3, false)
    }];
    let (mut transitions, missing) = lifecycle.reconcile(false, &entries);
    assert_eq!(missing, vec![0]);
    assert!(lifecycle.accept_decoded(&mut transitions, &entries, entries[0], true));
    block(&mut lifecycle, &[]);
    let transitions = lifecycle.take_transitions();
    assert!(transitions.finished.is_empty());
    assert_eq!(transitions.removed, vec![3]);
}

#[test]
fn undecodable_entries_end_at_once_unless_they_loop() {
    let mut lifecycle = PlaybackLifecycle::new();
    let entries = [live(9, false), live(2, true), live(5, false)];
    let (finished, removed) = join(&mut lifecycle, &entries, false);
    assert_eq!(finished, vec![5, 9]);
    assert_eq!(removed, vec![5, 9]);
    let handles: Vec<i64> = lifecycle.slots().iter().map(|slot| slot.handle).collect();
    assert_eq!(handles, vec![2]);
}

#[test]
fn reconciliation_drops_dead_instances_and_refreshes_live_ones() {
    let mut lifecycle = PlaybackLifecycle::new();
    let entries = [live(4, false), live(1, false), live(8, false)];
    join(&mut lifecycle, &entries, true);
    let handles: Vec<i64> = lifecycle.slots().iter().map(|slot| slot.handle).collect();
    assert_eq!(handles, vec![1, 4, 8]);
    let update = [
        LivePlayback {
            track: 3,
            looping: true,
            ..live(8, false)
        },
        LivePlayback {
            finished: true,
            ..live(1, false)
        },
    ];
    let (transitions, missing) = lifecycle.reconcile(true, &update);
    assert!(transitions.finished.is_empty() && transitions.removed.is_empty());
    assert!(missing.is_empty());
    let slots = lifecycle.slots();
    assert_eq!(slots.len(), 2);
    assert_eq!((slots[0].handle, slots[0].finished), (1, true));
    assert_eq!((slots[1].handle, slots[1].track, slots[1].looping), (8, 3, true));
}
