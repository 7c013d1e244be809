use bifrost::error::{FetchError, InitError};
use bifrost::tpu_client::tracker::schedule_tracking::{EpochInfo, ScheduleReply, ScheduleTracker};
use std::collections::HashMap;

const IN_EPOCH: u64 = 432000;

fn reply(entries: &[(&str, &[usize])]) -> ScheduleReply {
    ScheduleReply::Schedule(
        entries
            .iter()
            .map(|(identity, indices)| (identity.to_string(), indices.to_vec()))
            .collect(),
    )
}

fn info(absolute_slot: u64, slot_index: u64, slots_in_epoch: u64) -> Option<EpochInfo> {
    Some(EpochInfo {
        absolute_slot,
        slot_index,
        slots_in_epoch,
    })
}

#[test]
fn test_slot_to_index() {
    let tracker = ScheduleTracker::from_parts(1000, 1432, HashMap::new(), HashMap::new(), 432);

    assert_eq!(tracker.slot_to_index(1000), Some(0));
    assert_eq!(tracker.slot_to_index(1001), Some(1));
    assert_eq!(tracker.slot_to_index(1431), Some(431));
    assert_eq!(tracker.slot_to_index(999), None); // Before epoch
    assert_eq!(tracker.slot_to_index(1432), None); // After epoch
}

#[test]
fn epoch_bounds_are_derived_from_the_report() {
    assert_eq!(
        ScheduleTracker::epoch_bounds(info(1005, 5, 432)),
        Ok((1000, 1432))
    );
    assert_eq!(
        ScheduleTracker::epoch_bounds(info(IN_EPOCH, 0, IN_EPOCH)),
        Ok((IN_EPOCH, 2 * IN_EPOCH))
    );
}

#[test]
fn epoch_bounds_refuse_a_wrong_report() {
    assert_eq!(
        ScheduleTracker::epoch_bounds(None),
        Err(InitError::EpochInfoUnavailable)
    );
    assert_eq!(
        ScheduleTracker::epoch_bounds(info(10, 0, 0)),
        Err(InitError::InvalidSlotsInEpoch)
    );
    assert_eq!(
        ScheduleTracker::epoch_bounds(info(1000, 432, 432)),
        Err(InitError::SlotIndexOutOfRange)
    );
    assert_eq!(
        ScheduleTracker::epoch_bounds(info(3, 5, 432)),
        Err(InitError::EpochOutOfRange)
    );
    assert_eq!(
        ScheduleTracker::epoch_bounds(info(u64::MAX, 0, 432)),
        Err(InitError::EpochOutOfRange)
    );
}

#[test]
fn fetch_schedule_inverts_the_reply() {
    let schedule =
        ScheduleTracker::fetch_schedule(reply(&[("ID_A", &[0, 1, 2, 3]), ("ID_B", &[4, 5])]))
            .unwrap();
    assert_eq!(schedule.len(), 6);
    assert_eq!(schedule.get(&0).map(String::as_str), Some("ID_A"));
    assert_eq!(schedule.get(&3).map(String::as_str), Some("ID_A"));
    assert_eq!(schedule.get(&4).map(String::as_str), Some("ID_B"));
    assert_eq!(schedule.get(&5).map(String::as_str), Some("ID_B"));
    assert_eq!(schedule.get(&6), None);
}

#[test]
fn fetch_schedule_lets_the_later_entry_win() {
    let schedule =
        ScheduleTracker::fetch_schedule(reply(&[("ID_A", &[0, 1]), ("ID_B", &[1])])).unwrap();
    assert_eq!(schedule.get(&0).map(String::as_str), Some("ID_A"));
    assert_eq!(schedule.get(&1).map(String::as_str), Some("ID_B"));
}

#[test]
fn fetch_schedule_names_each_failure() {
    assert_eq!(
        ScheduleTracker::fetch_schedule(ScheduleReply::Failed).unwrap_err(),
        FetchError::RpcFailed
    );
    assert_eq!(
        ScheduleTracker::fetch_schedule(ScheduleReply::Unavailable).unwrap_err(),
        FetchError::NoSchedule
    );
    assert_eq!(
        ScheduleTracker::fetch_schedule(reply(&[])).unwrap_err(),
        FetchError::EmptySchedule
    );
    assert_eq!(
        ScheduleTracker::fetch_schedule(reply(&[("ID_A", &[])])).unwrap_err(),
        FetchError::EmptySchedule
    );
}

#[test]
fn new_tracker_holds_both_schedules() {
    let tracker = ScheduleTracker::new(
        info(10_007, 7, IN_EPOCH),
        reply(&[("ID_A", &[0, 1, 2, 3])]),
        reply(&[("ID_B", &[0, 1, 2, 3])]),
    )
    .unwrap();
    assert_eq!(tracker.current_epoch_slot_start(), 10_000);
    assert_eq!(tracker.next_epoch_slot_start(), 10_000 + IN_EPOCH);
    assert_eq!(tracker.slots_in_epoch(), IN_EPOCH);
    assert_eq!(tracker.get_leader_for_slot_index(0), Some("ID_A"));
    assert_eq!(tracker.get_leader_for_slot_index(3), Some("ID_A"));
    assert_eq!(tracker.get_leader_for_slot_index(4), None);
    assert_eq!(tracker.curr_schedule_ref().len(), 4);
    assert_eq!(tracker.slot_to_index(10_000), Some(0));
    assert_eq!(tracker.slot_to_index(10_000 + IN_EPOCH), None);
}

#[test]
fn empty_schedule_at_construction_is_an_error() {
    let result = ScheduleTracker::new(
        info(10_000, 0, IN_EPOCH),
        reply(&[]),
        reply(&[("ID_B", &[0])]),
    );
    assert_eq!(
        result.unwrap_err(),
        InitError::CurrentSchedule(FetchError::EmptySchedule)
    );
    let result = ScheduleTracker::new(
        info(10_000, 0, IN_EPOCH),
        reply(&[("ID_A", &[0])]),
        reply(&[]),
    );
    assert_eq!(
        result.unwrap_err(),
        InitError::NextSchedule(FetchError::EmptySchedule)
    );
}

#[test]
fn construction_names_each_failure() {
    let good = || reply(&[("ID_A", &[0])]);
    assert_eq!(
        ScheduleTracker::new(None, good(), good()).unwrap_err(),
        InitError::EpochInfoUnavailable
    );
    assert_eq!(
        ScheduleTracker::new(info(5, 0, 0), good(), good()).unwrap_err(),
        InitError::InvalidSlotsInEpoch
    );
    assert_eq!(
        ScheduleTracker::new(info(5, 9, 9), good(), good()).unwrap_err(),
        InitError::SlotIndexOutOfRange
    );
    assert_eq!(
        ScheduleTracker::new(info(5, 6, 9), good(), good()).unwrap_err(),
        InitError::EpochOutOfRange
    );
    assert_eq!(
        ScheduleTracker::new(info(5, 0, 9), ScheduleReply::Failed, good()).unwrap_err(),
        InitError::CurrentSchedule(FetchError::RpcFailed)
    );
    assert_eq!(
        ScheduleTracker::new(info(5, 0, 9), good(), ScheduleReply::Unavailable).unwrap_err(),
        InitError::NextSchedule(FetchError::NoSchedule)
    );
}

fn tracker_at_zero() -> ScheduleTracker {
    ScheduleTracker::new(
        info(0, 0, IN_EPOCH),
        reply(&[("ID_A", &[0, 1, 2, 3, 4, 5])]),
        reply(&[("ID_B", &[0, 1, 2, 3]), ("ID_C", &[4, 5, 6, 7])]),
    )
    .unwrap()
}

#[test]
fn rotation_shifts_by_one_epoch() {
    let mut tracker = tracker_at_zero();
    assert_eq!(tracker.current_epoch_slot_start(), 0);
    assert_eq!(tracker.next_epoch_slot_start(), 432_000);
    assert_eq!(tracker.get_leader_for_slot_index(5), Some("ID_A"));

    assert_eq!(tracker.rotation_target(432_005), Some(864_000));
    let rotated = tracker.maybe_rotate(432_005, reply(&[("ID_D", &[0, 1, 2, 3])]));
    assert_eq!(rotated, Ok(true));
    assert_eq!(tracker.current_epoch_slot_start(), 432_000);
    assert_eq!(tracker.next_epoch_slot_start(), 864_000);
    assert_eq!(tracker.slots_in_epoch(), IN_EPOCH);
    // What was next_map[5] leads index 5 now.
    assert_eq!(tracker.get_leader_for_slot_index(5), Some("ID_C"));
    assert_eq!(tracker.get_leader_for_slot_index(0), Some("ID_B"));
    assert_eq!(tracker.slot_to_index(432_005), Some(5));

    // One more epoch on: the fetched schedule has become the current one.
    assert_eq!(
        tracker.maybe_rotate(864_000, reply(&[("ID_E", &[0])])),
        Ok(true)
    );
    assert_eq!(tracker.get_leader_for_slot_index(0), Some("ID_D"));
    assert_eq!(tracker.current_epoch_slot_start(), 864_000);
}

#[test]
fn rotation_within_the_epoch_changes_nothing() {
    let mut tracker = tracker_at_zero();
    for slot in [0, 1, 431_999] {
        assert_eq!(tracker.rotation_target(slot), None);
        assert_eq!(
            tracker.maybe_rotate(slot, reply(&[("ID_D", &[0])])),
            Ok(false)
        );
        assert_eq!(tracker.maybe_rotate(slot, ScheduleReply::Failed), Ok(false));
        assert_eq!(tracker.current_epoch_slot_start(), 0);
        assert_eq!(tracker.next_epoch_slot_start(), 432_000);
        assert_eq!(tracker.get_leader_for_slot_index(5), Some("ID_A"));
    }
    // The next schedule is untouched too: it is what a rotation brings in.
    assert_eq!(tracker.maybe_rotate(432_000, reply(&[("ID_D", &[0])])), Ok(true));
    assert_eq!(tracker.get_leader_for_slot_index(7), Some("ID_C"));
}

#[test]
fn failed_fetch_leaves_the_tracker_as_it_was() {
    let mut tracker = tracker_at_zero();
    assert_eq!(
        tracker.maybe_rotate(432_005, ScheduleReply::Failed),
        Err(FetchError::RpcFailed)
    );
    assert_eq!(
        tracker.maybe_rotate(432_005, ScheduleReply::Unavailable),
        Err(FetchError::NoSchedule)
    );
    assert_eq!(
        tracker.maybe_rotate(432_005, reply(&[])),
        Err(FetchError::EmptySchedule)
    );
    assert_eq!(tracker.current_epoch_slot_start(), 0);
    assert_eq!(tracker.next_epoch_slot_start(), 432_000);
    assert_eq!(tracker.get_leader_for_slot_index(5), Some("ID_A"));
    // The next schedule was kept: a later rotation brings it in.
    assert_eq!(tracker.maybe_rotate(432_005, reply(&[("ID_D", &[0])])), Ok(true));
    assert_eq!(tracker.get_leader_for_slot_index(5), Some("ID_C"));
}

#[test]
fn rotation_past_the_last_slot_fails() {
    let mut tracker = ScheduleTracker::new(
        info(u64::MAX - 20, 0, 10),
        reply(&[("ID_A", &[0])]),
        reply(&[("ID_B", &[0])]),
    )
    .unwrap();
    assert_eq!(tracker.next_epoch_slot_start(), u64::MAX - 10);
    assert_eq!(tracker.rotation_target(u64::MAX - 10), Some(u64::MAX));
    assert_eq!(tracker.maybe_rotate(u64::MAX - 10, reply(&[("ID_C", &[0])])), Ok(true));
    assert_eq!(tracker.next_epoch_slot_start(), u64::MAX);
    assert_eq!(tracker.rotation_target(u64::MAX), None);
    assert_eq!(
        tracker.maybe_rotate(u64::MAX, reply(&[("ID_D", &[0])])),
        Err(FetchError::SlotOutOfRange)
    );
    assert_eq!(tracker.current_epoch_slot_start(), u64::MAX - 10);
}

#[test]
fn lagging_tracker_rotates_one_epoch_per_call() {
    let mut tracker = tracker_at_zero();
    let far = 3 * IN_EPOCH + 1;
    assert_eq!(tracker.maybe_rotate(far, reply(&[("ID_D", &[0])])), Ok(true));
    assert_eq!(tracker.current_epoch_slot_start(), IN_EPOCH);
    assert_eq!(tracker.slot_to_index(far), None);
    assert_eq!(tracker.maybe_rotate(far, reply(&[("ID_E", &[0])])), Ok(true));
    assert_eq!(tracker.maybe_rotate(far, reply(&[("ID_F", &[0])])), Ok(true));
    assert_eq!(tracker.current_epoch_slot_start(), 3 * IN_EPOCH);
    assert_eq!(tracker.slot_to_index(far), Some(1));
    assert_eq!(tracker.maybe_rotate(far, reply(&[("ID_G", &[0])])), Ok(false));
}

#[test]
fn next_schedule_can_be_changed_in_place() {
    let mut tracker = tracker_at_zero();
    tracker
        .next_schedule_mut()
        .insert(5, "ID_Z".to_string());
    assert_eq!(tracker.maybe_rotate(432_000, reply(&[("ID_D", &[0])])), Ok(true));
    assert_eq!(tracker.get_leader_for_slot_index(5), Some("ID_Z"));
}
