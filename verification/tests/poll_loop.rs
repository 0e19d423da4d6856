use cosmosguard::channel::{ChannelError, ChannelState};
use cosmosguard::layout::RECORD_SIZE;
use cosmosguard::poll::{LoopFault, PollLoop, Step, IDLE_INTERVAL_MS, POLL_INTERVAL_MS};
use cosmosguard::record::DecodeError;

fn batch_of(pids: &[u32]) -> Vec<u8> {
    let mut bytes = Vec::new();
    for pid in pids {
        let mut record = vec![0u8; RECORD_SIZE];
        record[0..4].copy_from_slice(&pid.to_le_bytes());
        record[4..8].copy_from_slice(&1u32.to_le_bytes());
        record[24..28].copy_from_slice(&1u32.to_le_bytes());
        let name = format!("p{}.exe", pid);
        for (k, unit) in name.encode_utf16().enumerate() {
            record[28 + 2 * k..30 + 2 * k].copy_from_slice(&unit.to_le_bytes());
        }
        bytes.extend(record);
    }
    bytes
}

fn connected_loop() -> PollLoop {
    let mut poll = PollLoop::new();
    match poll.on_open(Ok(())) {
        Step::Fetch { wait_ms, emit } => {
            assert_eq!(wait_ms, 0);
            assert!(emit.is_empty());
        }
        other => panic!("unexpected step {:?}", other),
    }
    assert_eq!(poll.channel_state(), ChannelState::Connected);
    poll
}

fn emitted_pids(step: &Step) -> Vec<u32> {
    match step {
        Step::Fetch { emit, .. } => emit.iter().map(|r| r.pid).collect(),
        other => panic!("unexpected step {:?}", other),
    }
}

#[test]
fn new_loop_is_disconnected() {
    let poll = PollLoop::new();
    assert_eq!(poll.channel_state(), ChannelState::Disconnected);
    assert_eq!(poll.fault(), None);
    assert!(!poll.has_seen(0));
}

#[test]
fn empty_response_takes_the_long_wait() {
    let mut poll = connected_loop();
    let step = poll.on_fetch(Ok(Vec::new()));
    match &step {
        Step::Fetch { wait_ms, emit } => {
            assert_eq!(*wait_ms, IDLE_INTERVAL_MS);
            assert_eq!(*wait_ms, 1000);
            assert!(emit.is_empty());
        }
        other => panic!("unexpected step {:?}", other),
    }
    assert_eq!(poll.channel_state(), ChannelState::Connected);
    assert_eq!(poll.fault(), None);
    let next = poll.on_fetch(Ok(batch_of(&[1])));
    assert_eq!(emitted_pids(&next), vec![1]);
}

#[test]
fn repeated_pid_is_emitted_once() {
    let mut poll = connected_loop();
    let step = poll.on_fetch(Ok(batch_of(&[10, 20, 10])));
    match &step {
        Step::Fetch { wait_ms, emit } => {
            assert_eq!(*wait_ms, POLL_INTERVAL_MS);
            assert_eq!(*wait_ms, 200);
            assert_eq!(emit.len(), 2);
            assert_eq!(emit[0].pid, 10);
            assert_eq!(emit[0].image_path, "p10.exe");
            assert_eq!(emit[1].pid, 20);
            assert_eq!(emit[1].image_path, "p20.exe");
        }
        other => panic!("unexpected step {:?}", other),
    }
    assert!(poll.has_seen(10));
    assert!(poll.has_seen(20));
    assert!(!poll.has_seen(30));
}

#[test]
fn failed_open_starts_no_loop() {
    let mut poll = PollLoop::new();
    let step = poll.on_open(Err(ChannelError::OpenFailed { code: 2 }));
    match step {
        Step::Stop { fault } => {
            assert_eq!(fault, LoopFault::Channel(ChannelError::OpenFailed { code: 2 }));
        }
        other => panic!("unexpected step {:?}", other),
    }
    assert_eq!(poll.channel_state(), ChannelState::Disconnected);
    assert_eq!(poll.fault(), Some(LoopFault::Channel(ChannelError::OpenFailed { code: 2 })));
    assert_ne!(poll.fault().unwrap().exit_code(), 0);
    assert!(matches!(poll.on_open(Ok(())), Step::Stop { .. }));
    assert!(matches!(poll.on_fetch(Ok(batch_of(&[1]))), Step::Stop { .. }));
    assert!(!poll.has_seen(1));
}

#[test]
fn misaligned_response_stops_without_emitting() {
    let mut poll = connected_loop();
    let first = poll.on_fetch(Ok(batch_of(&[1, 2])));
    assert_eq!(emitted_pids(&first), vec![1, 2]);
    let mut bad = batch_of(&[3, 4]);
    bad.truncate(2 * RECORD_SIZE - 5);
    let step = poll.on_fetch(Ok(bad));
    let expected = LoopFault::Decode(DecodeError::Misaligned {
        length: 2 * RECORD_SIZE - 5,
        record_size: RECORD_SIZE,
    });
    match step {
        Step::Stop { fault } => assert_eq!(fault, expected),
        other => panic!("unexpected step {:?}", other),
    }
    assert_eq!(poll.channel_state(), ChannelState::Faulted);
    assert_eq!(poll.fault(), Some(expected));
    assert!(!poll.has_seen(3));
    assert!(!poll.has_seen(4));
    assert!(poll.has_seen(1));
}

#[test]
fn failed_request_faults_the_channel() {
    let mut poll = connected_loop();
    let step = poll.on_fetch(Err(ChannelError::IoFailed { code: -5 }));
    let expected = LoopFault::Channel(ChannelError::IoFailed { code: -5 });
    assert!(matches!(step, Step::Stop { fault } if fault == expected));
    assert_eq!(poll.channel_state(), ChannelState::Faulted);
    let again = poll.on_fetch(Ok(batch_of(&[9])));
    assert!(matches!(again, Step::Stop { fault } if fault == expected));
    assert!(!poll.has_seen(9));
    assert!(matches!(poll.on_open(Ok(())), Step::Stop { fault } if fault == expected));
    assert_eq!(poll.channel_state(), ChannelState::Faulted);
}

#[test]
fn oversized_response_stops_the_loop() {
    let mut poll = connected_loop();
    let step = poll.on_fetch(Ok(vec![0u8; 129 * RECORD_SIZE]));
    let expected = LoopFault::Decode(DecodeError::OverCapacity { count: 129, capacity: 128 });
    assert!(matches!(step, Step::Stop { fault } if fault == expected));
    assert!(!poll.has_seen(0));
}

#[test]
fn response_before_open_asks_to_open() {
    let mut poll = PollLoop::new();
    assert!(matches!(poll.on_fetch(Ok(batch_of(&[1]))), Step::Open));
    assert!(matches!(poll.on_fetch(Err(ChannelError::IoFailed { code: 1 })), Step::Open));
    assert_eq!(poll.channel_state(), ChannelState::Disconnected);
    assert_eq!(poll.fault(), None);
    assert!(!poll.has_seen(1));
}

#[test]
fn pids_stay_seen_across_batches() {
    let mut poll = connected_loop();
    assert_eq!(emitted_pids(&poll.on_fetch(Ok(batch_of(&[1, 2, 3])))), vec![1, 2, 3]);
    assert_eq!(emitted_pids(&poll.on_fetch(Ok(Vec::new()))), Vec::<u32>::new());
    assert_eq!(emitted_pids(&poll.on_fetch(Ok(batch_of(&[3, 4, 1, 4, 5])))), vec![4, 5]);
    assert_eq!(emitted_pids(&poll.on_fetch(Ok(batch_of(&[5, 4, 3, 2, 1])))), Vec::<u32>::new());
}

#[test]
fn independent_loops_have_independent_memories() {
    let mut one = connected_loop();
    let mut two = connected_loop();
    assert_eq!(emitted_pids(&one.on_fetch(Ok(batch_of(&[8])))), vec![8]);
    assert_eq!(emitted_pids(&two.on_fetch(Ok(batch_of(&[8])))), vec![8]);
}

#[test]
fn opening_twice_keeps_the_connection() {
    let mut poll = connected_loop();
    assert!(matches!(poll.on_open(Err(ChannelError::OpenFailed { code: 5 })), Step::Fetch { .. }));
    assert_eq!(poll.channel_state(), ChannelState::Connected);
    assert_eq!(poll.fault(), None);
}

#[test]
fn channel_state_transitions() {
    assert_eq!(ChannelState::Disconnected.after_open(true), ChannelState::Connected);
    assert_eq!(ChannelState::Disconnected.after_open(false), ChannelState::Disconnected);
    assert_eq!(ChannelState::Connected.after_open(false), ChannelState::Connected);
    assert_eq!(ChannelState::Faulted.after_open(true), ChannelState::Faulted);
    assert_eq!(ChannelState::Connected.after_request(true), ChannelState::Connected);
    assert_eq!(ChannelState::Connected.after_request(false), ChannelState::Faulted);
    assert_eq!(ChannelState::Disconnected.after_request(false), ChannelState::Disconnected);
    assert_eq!(ChannelState::Faulted.after_request(true), ChannelState::Faulted);
    assert!(ChannelState::Connected.is_connected());
    assert!(!ChannelState::Faulted.is_connected());
    assert_eq!(ChannelError::OpenFailed { code: 2 }.code(), 2);
    assert_eq!(ChannelError::IoFailed { code: -7 }.code(), -7);
}

#[test]
fn exit_status_tells_a_failed_open_from_a_stopped_loop() {
    assert_eq!(LoopFault::Channel(ChannelError::OpenFailed { code: 5 }).exit_code(), 1);
    assert_eq!(LoopFault::Channel(ChannelError::IoFailed { code: 5 }).exit_code(), 0);
    let misaligned = DecodeError::Misaligned { length: 1, record_size: 552 };
    assert_eq!(LoopFault::Decode(misaligned).exit_code(), 0);
}
