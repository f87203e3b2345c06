use blast::audio_processing::commands::{CmdErr, CmdQueue, Command, QuitArgs, UnloadArgs};
use blast::audio_processing::spsc_q::{next_index, ring_empty, ring_full, SpscQueue};

#[test]
fn queue_hands_values_out_in_order() {
    let mut q: SpscQueue<u32> = SpscQueue::new(4);
    assert!(q.try_push(1).is_ok());
    assert!(q.try_push(2).is_ok());
    assert!(q.try_push(3).is_ok());
    assert_eq!(q.try_push(4), Err(4));
    assert_eq!(q.try_pop(), Some(1));
    assert_eq!(q.try_pop(), Some(2));
    assert!(q.try_push(5).is_ok());
    assert_eq!(q.try_pop(), Some(3));
    assert_eq!(q.try_pop(), Some(5));
    assert_eq!(q.try_pop(), None);
}

#[test]
fn queue_holds_one_less_than_its_slots() {
    let mut q: SpscQueue<usize> = SpscQueue::new(256);
    for i in 0..255 {
        assert!(q.try_push(i).is_ok());
        assert_eq!(q.len(), i + 1);
    }
    assert_eq!(q.try_push(255), Err(255));
    assert_eq!(q.len(), 255);
    for i in 0..255 {
        assert_eq!(q.try_pop(), Some(i));
    }
    assert_eq!(q.try_pop(), None);
    assert_eq!(q.len(), 0);
}

#[test]
fn queue_of_one_slot_is_always_full() {
    let mut q: SpscQueue<u8> = SpscQueue::new(1);
    assert_eq!(q.try_push(9), Err(9));
    assert_eq!(q.try_pop(), None);
}

#[test]
fn queue_goes_round_many_times() {
    let mut q: SpscQueue<u32> = SpscQueue::new(3);
    let mut next_out = 0;
    for i in 0..100u32 {
        assert!(q.try_push(i).is_ok());
        if i % 2 == 1 {
            assert_eq!(q.try_pop(), Some(next_out));
            assert_eq!(q.try_pop(), Some(next_out + 1));
            next_out += 2;
        }
    }
}

#[test]
fn ring_indices() {
    assert_eq!(next_index(0, 4), 1);
    assert_eq!(next_index(3, 4), 0);
    assert_eq!(next_index(0, 1), 0);
    assert!(ring_empty(2, 2));
    assert!(!ring_empty(2, 3));
    assert!(ring_full(1, 2, 4));
    assert!(ring_full(3, 0, 4));
    assert!(!ring_full(0, 0, 4));
}

#[test]
fn command_queue_reports_full() {
    let mut q = CmdQueue::new(3);
    assert_eq!(q.try_push(Command::Unload(UnloadArgs { idx: 1 })), Ok(()));
    assert_eq!(q.try_push(Command::Quit(QuitArgs {})), Ok(()));
    assert_eq!(q.try_push(Command::Unload(UnloadArgs { idx: 2 })), Err(CmdErr::QueueFull));
    assert_eq!(q.try_pop(), Some(Command::Unload(UnloadArgs { idx: 1 })));
    assert_eq!(q.try_pop(), Some(Command::Quit(QuitArgs {})));
    assert_eq!(q.try_pop(), None);
}
