use homa::components::priority_levels::{entry_after, sort_priority_levels, PriorityLevelEntry};
use homa::components::priority_manager::{address_key, PriorityManager};
use homa::components::workload_manager::WorkloadManager;
use homa::config::Config;
use homa::utils::{fuzz_timeout, quantile};

use PriorityLevelEntry::{Empty, Occupied};

#[test]
fn two_concurrent_scheduled_messages() {
    let mut manager = PriorityManager::new(&Config::default());
    assert_eq!(manager.scheduled_priority_levels(), [Empty, Empty]);
    assert_eq!(manager.handle_register_scheduled_message(1, 10), vec![(1, 10)]);
    assert_eq!(manager.handle_register_scheduled_message(2, 5), vec![(2, 5)]);
    assert_eq!(manager.scheduled_priority_levels(), [Occupied((2, 5)), Occupied((1, 10))]);
    assert_eq!(manager.handle_get_scheduled_priority(1, 10), Some(8));
    assert_eq!(manager.handle_get_scheduled_priority(2, 5), Some(0));
    assert_eq!(manager.handle_get_scheduled_priority(2, 3), Some(0));
    assert_eq!(manager.handle_get_scheduled_priority(1, 10), Some(8));
    assert_eq!(manager.handle_get_scheduled_priority(1, 2), Some(0));
    assert_eq!(manager.handle_get_scheduled_priority(2, 3), Some(8));
    assert_eq!(manager.scheduled_priority_levels(), [Occupied((1, 2)), Occupied((2, 3))]);
}

#[test]
fn waiting_messages_move_up_shortest_first() {
    let mut manager = PriorityManager::new(&Config::default());
    manager.handle_register_scheduled_message(1, 100);
    manager.handle_register_scheduled_message(2, 50);
    assert!(manager.handle_register_scheduled_message(3, 70).is_empty());
    assert!(manager.handle_register_scheduled_message(4, 60).is_empty());
    assert!(manager.handle_register_scheduled_message(5, 90).is_empty());
    assert_eq!(manager.handle_get_scheduled_priority(3, 70), None);
    assert_eq!(manager.find_message_position(3), None);
    assert!(manager.find_empty_entry_positions().is_empty());
    assert_eq!(manager.handle_unregister_scheduled_message(2), vec![(4, 60)]);
    assert_eq!(manager.scheduled_priority_levels(), [Occupied((4, 60)), Occupied((1, 100))]);
    assert_eq!(manager.handle_unregister_scheduled_message(1), vec![(3, 70)]);
    assert_eq!(manager.handle_unregister_scheduled_message(3), vec![(5, 90)]);
    assert_eq!(manager.scheduled_priority_levels(), [Occupied((4, 60)), Occupied((5, 90))]);
    assert!(manager.handle_unregister_scheduled_message(4).is_empty());
    assert_eq!(manager.scheduled_priority_levels(), [Occupied((5, 90)), Empty]);
    assert_eq!(manager.find_empty_entry_positions(), vec![1]);
    assert_eq!(manager.find_message_position(5), Some(0));
    assert!(manager.handle_unregister_scheduled_message(4).is_empty());
    assert!(manager.try_activate_messages().is_empty());
}

#[test]
fn registering_again() {
    let mut manager = PriorityManager::new(&Config::default());
    manager.handle_register_scheduled_message(1, 100);
    manager.handle_register_scheduled_message(2, 50);
    assert_eq!(manager.handle_register_scheduled_message(1, 20), vec![(1, 20)]);
    assert_eq!(manager.scheduled_priority_levels(), [Occupied((1, 20)), Occupied((2, 50))]);
    assert!(manager.handle_register_scheduled_message(3, 70).is_empty());
    assert!(manager.handle_register_scheduled_message(3, 30).is_empty());
    assert_eq!(manager.handle_unregister_scheduled_message(1), vec![(3, 30)]);
    assert!(manager.handle_unregister_scheduled_message(2).is_empty());
    assert_eq!(manager.scheduled_priority_levels(), [Occupied((3, 30)), Empty]);
    assert_eq!(manager.update_message(3, 10), Some(0));
    assert_eq!(manager.update_message(4, 10), None);
}

#[test]
fn slots_sort_occupied_ascending_then_empty() {
    let mut slots = [Empty, Occupied((1, 9))];
    sort_priority_levels(&mut slots);
    assert_eq!(slots, [Occupied((1, 9)), Empty]);
    let mut slots = [Occupied((1, 9)), Occupied((2, 3))];
    sort_priority_levels(&mut slots);
    assert_eq!(slots, [Occupied((2, 3)), Occupied((1, 9))]);
    let mut slots = [Occupied((1, 4)), Occupied((2, 4))];
    sort_priority_levels(&mut slots);
    assert_eq!(slots, [Occupied((1, 4)), Occupied((2, 4))]);
    let mut slots = [Occupied((2, u64::MAX)), Empty];
    sort_priority_levels(&mut slots);
    assert_eq!(slots, [Occupied((2, u64::MAX)), Empty]);
    assert!(entry_after(&Empty, &Occupied((1, u64::MAX))));
    assert!(!entry_after(&Empty, &Empty));
    assert!(!entry_after(&Occupied((1, 5)), &Occupied((2, 5))));
    assert!(entry_after(&Occupied((1, 6)), &Occupied((2, 5))));
}

#[test]
fn unscheduled_priority_without_advertisement() {
    let manager = PriorityManager::new(&Config::default());
    let peer = [10, 1, 2, 3];
    assert_eq!(manager.handle_get_unscheduled_priority(peer, 0), 56);
    assert_eq!(manager.handle_get_unscheduled_priority(peer, 1400), 56);
    assert_eq!(manager.handle_get_unscheduled_priority(peer, 1401), 48);
    assert_eq!(manager.handle_get_unscheduled_priority(peer, 2800), 48);
    assert_eq!(manager.handle_get_unscheduled_priority(peer, 4200), 40);
    assert_eq!(manager.handle_get_unscheduled_priority(peer, 5600), 32);
    assert_eq!(manager.handle_get_unscheduled_priority(peer, 7000), 24);
    assert_eq!(manager.handle_get_unscheduled_priority(peer, 7001), 16);
    assert_eq!(manager.handle_get_unscheduled_priority(peer, u64::MAX), 16);
}

#[test]
fn unscheduled_priority_from_advertisement() {
    let mut manager = PriorityManager::new(&Config::default());
    let peer = [10, 1, 2, 3];
    manager.handle_put_priority_level_partions(peer, [100, 200, 300, 400, 500]);
    assert_eq!(manager.handle_get_unscheduled_priority(peer, 50), 56);
    assert_eq!(manager.handle_get_unscheduled_priority(peer, 100), 56);
    assert_eq!(manager.handle_get_unscheduled_priority(peer, 101), 48);
    assert_eq!(manager.handle_get_unscheduled_priority(peer, 300), 40);
    assert_eq!(manager.handle_get_unscheduled_priority(peer, 400), 32);
    assert_eq!(manager.handle_get_unscheduled_priority(peer, 500), 24);
    assert_eq!(manager.handle_get_unscheduled_priority(peer, 501), 24);
    assert_eq!(manager.handle_get_unscheduled_priority([10, 1, 2, 4], 501), 56);
    manager.handle_put_priority_level_partions(peer, [1, 2, 3, 4, 5]);
    assert_eq!(manager.handle_get_unscheduled_priority(peer, 50), 24);
    assert_eq!(address_key([1, 2, 3, 4]), 0x0102_0304);
    assert_eq!(address_key([255, 255, 255, 255]), u32::MAX);
}

#[test]
fn workload_is_uniform_below_the_sample_minimum() {
    let mut manager = WorkloadManager::new(&Config::default());
    assert_eq!(manager.handle_get_workload(), [1400, 2800, 4200, 5600, 7000]);
    for i in 0..99u64 {
        assert_eq!(manager.handle_update_workload(i * 1000), [1400, 2800, 4200, 5600, 7000]);
    }
    assert_eq!(manager.message_lengths().len(), 99);
    let mut config = Config::default();
    config.UNSCHEDULED_DATAGRAM_LIMIT = 10;
    config.DATAGRAM_PAYLOAD_LENGTH = 100;
    assert_eq!(WorkloadManager::new(&config).handle_get_workload(), [166, 332, 498, 664, 830]);
}

#[test]
fn workload_quantiles() {
    let mut manager = WorkloadManager::new(&Config::default());
    let mut workload = [0; 5];
    for i in (1..=100u64).rev() {
        workload = manager.handle_update_workload(i * 100);
    }
    assert_eq!(workload, [1750, 3400, 5050, 6700, 8350]);
    assert_eq!(manager.handle_get_workload(), workload);
    assert!(workload.windows(2).all(|pair| pair[0] <= pair[1]));
    let expected: Vec<u64> = (1..=100u64).map(|i| i * 100).collect();
    assert_eq!(manager.message_lengths(), &expected);
}

#[test]
fn workload_samples_stay_sorted() {
    let mut manager = WorkloadManager::new(&Config::default());
    for sample in [5u64, 1, 9, 5, 0, u64::MAX, 3, 5] {
        manager.handle_update_workload(sample);
    }
    assert_eq!(manager.message_lengths(), &vec![0, 1, 3, 5, 5, 5, 9, u64::MAX]);
}

#[test]
fn workload_of_equal_samples_is_flat() {
    let mut manager = WorkloadManager::new(&Config::default());
    let mut workload = [0; 5];
    for _ in 0..100 {
        workload = manager.handle_update_workload(5);
    }
    assert_eq!(workload, [5, 5, 5, 5, 5]);
}

#[test]
fn quantile_interpolates_and_rounds_down() {
    let samples: Vec<u64> = (1..=100u64).map(|i| i * 100).collect();
    assert_eq!(quantile(&samples, 1, 6), 1750);
    assert_eq!(quantile(&samples, 2, 6), 3400);
    assert_eq!(quantile(&samples, 3, 6), 5050);
    assert_eq!(quantile(&samples, 4, 6), 6700);
    assert_eq!(quantile(&samples, 5, 6), 8350);
    assert_eq!(quantile(&samples, 0, 6), 100);
    assert_eq!(quantile(&samples, 6, 6), 10000);
    assert_eq!(quantile(&vec![10, 20], 1, 2), 15);
    assert_eq!(quantile(&vec![10, 21], 1, 2), 15);
    assert_eq!(quantile(&vec![10, 21], 1, 4), 12);
    assert_eq!(quantile(&vec![7], 1, 6), 7);
    assert_eq!(quantile(&vec![5; 100], 1, 6), 5);
    assert_eq!(quantile(&vec![u64::MAX, u64::MAX], 1, 2), u64::MAX);
    assert_eq!(quantile(&vec![0, u64::MAX], u64::MAX - 1, u64::MAX), u64::MAX - 1);
}

#[test]
fn fuzzed_timeouts_stay_in_range() {
    for base in [2u64, 3, 15, 16, 10_000, u64::MAX / 2] {
        let mut low = false;
        let mut high = false;
        for _ in 0..500 {
            let timeout = fuzz_timeout(base);
            assert!(timeout >= base - base / 2);
            assert!(timeout < base + base / 2);
            low |= timeout < base;
            high |= timeout >= base;
        }
        assert!(high);
        assert!(low || base < 4);
    }
    assert_eq!(fuzz_timeout(0), 0);
    assert_eq!(fuzz_timeout(1), 1);
    for _ in 0..100 {
        assert!(fuzz_timeout(u64::MAX) >= u64::MAX - u64::MAX / 2);
    }
}

#[test]
fn recomputed_partitions_are_the_quantiles_of_the_samples() {
    let mut manager = WorkloadManager::new(&Config::default());
    manager.calculate_priority_level_partitions();
    assert_eq!(manager.handle_get_workload(), [1400, 2800, 4200, 5600, 7000]);
    for i in 1..=100u64 {
        manager.handle_update_workload(i * 100);
    }
    manager.calculate_priority_level_partitions();
    let workload = manager.handle_get_workload();
    for (k, boundary) in workload.iter().enumerate() {
        assert_eq!(*boundary, quantile(manager.message_lengths(), k as u64 + 1, 6));
    }
    assert_eq!(workload, [1750, 3400, 5050, 6700, 8350]);
    assert!(workload.windows(2).all(|pair| pair[0] <= pair[1]));
}

#[test]
fn a_vacated_slot_goes_to_one_waiter_at_most() {
    let mut manager = PriorityManager::new(&Config::default());
    manager.handle_register_scheduled_message(1, 100);
    manager.handle_register_scheduled_message(2, 50);
    manager.handle_register_scheduled_message(3, 70);
    manager.handle_register_scheduled_message(4, 60);
    let activated = manager.handle_unregister_scheduled_message(1);
    assert_eq!(activated, vec![(4, 60)]);
    assert_eq!(manager.find_message_position(1), None);
    assert_eq!(manager.find_message_position(2), Some(0));
    assert_eq!(manager.find_message_position(4), Some(1));
    assert_eq!(manager.find_message_position(3), None);
    assert!(manager.find_empty_entry_positions().is_empty());
    let before = manager.scheduled_priority_levels();
    assert!(manager.handle_unregister_scheduled_message(9).is_empty());
    assert_eq!(manager.scheduled_priority_levels(), before);
}
