use etr::stress::{
    parse_task, send_goes_on, stats_line, SendFailure, Task, TaskError, CONNECT_ATTEMPTS,
};

fn task(args: &[&str]) -> Result<(Task, u16), TaskError> {
    parse_task(&args.iter().map(|s| s.to_string()).collect())
}

#[test]
fn tasks_are_read_from_the_command_line() {
    assert_eq!(task(&["tcp-echo", "1"]), Ok((Task::TcpEcho, 1)));
    assert_eq!(task(&["udp-echo", "2"]), Ok((Task::UdpEcho, 2)));
    assert_eq!(task(&["tcp-pump", "3"]), Ok((Task::TcpPump, 3)));
    assert_eq!(task(&["udp-pump", "4"]), Ok((Task::UdpPump { pace_us: 0 }, 4)));
    assert_eq!(task(&["udp-pump", "4", "1000"]), Ok((Task::UdpPump { pace_us: 1000 }, 4)));
    assert_eq!(task(&["udp-pump", "4", "x"]), Ok((Task::UdpPump { pace_us: 0 }, 4)));
    assert_eq!(task(&["tcp-echo"]), Err(TaskError::Usage));
    assert_eq!(task(&["tcp-echo", "port"]), Err(TaskError::BadPort));
    assert_eq!(task(&["other", "1"]), Err(TaskError::Unknown));
}

#[test]
fn full_buffers_are_no_reason_to_stop() {
    assert!(send_goes_on(SendFailure::WouldBlock));
    assert!(send_goes_on(SendFailure::OutOfMemory));
    assert!(send_goes_on(SendFailure::Refused));
    assert!(send_goes_on(SendFailure::NoBuffers));
    assert!(!send_goes_on(SendFailure::Other));
    assert_eq!(CONNECT_ATTEMPTS, 50);
}

#[test]
fn results_are_reported_in_one_line() {
    assert_eq!(stats_line(false, 10, 9, 30_005), "TCP sent=10 recv=9 elapsed=30.005");
    assert_eq!(stats_line(true, 0, 0, 1), "UDP sent=0 recv=0 elapsed=0.001");
    assert_eq!(stats_line(true, 0, 0, 1_050), "UDP sent=0 recv=0 elapsed=1.050");
    assert_eq!(stats_line(true, 0, 0, 2_345), "UDP sent=0 recv=0 elapsed=2.345");
}
