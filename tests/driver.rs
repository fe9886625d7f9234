use rust_ssh_connect::combos::generate_combos;
use rust_ssh_connect::driver::{Driver, Step, EXIT_CONNECTED, EXIT_EXHAUSTED};
use rust_ssh_connect::outcome::{classify, AttemptOutcome};
use rust_ssh_connect::SshConfig;

/// Runs the search with `answer` standing in for the connection attempts;
/// gives the positions tried and the exit status.
fn run(total: usize, mut answer: impl FnMut(usize) -> AttemptOutcome) -> (Vec<usize>, i32) {
    let mut d = Driver::new(total);
    let mut tried = Vec::new();
    loop {
        match d.next_step() {
            Step::Attempt(i) => {
                tried.push(i);
                let o = answer(i);
                d.record(&o);
            }
            Step::Exit(code) => return (tried, code),
        }
    }
}

#[test]
fn no_candidates_exit_one_without_attempts() {
    let cfg = SshConfig { certs: vec![], ports: vec![22], users: vec!["u".to_string()] };
    let combos = generate_combos("h", &cfg, "", "", "/home/me");
    let (tried, code) = run(combos.len(), |_| panic!("no attempt expected"));
    assert!(tried.is_empty());
    assert_eq!(code, 1);
    assert_eq!(code, EXIT_EXHAUSTED);
}

#[test]
fn all_rejected_exits_one_after_every_attempt() {
    let diag = "user@host: Permission denied (publickey).";
    let (tried, code) = run(6, |_| {
        let o = classify(false, diag);
        assert!(matches!(o, AttemptOutcome::AuthRejected));
        o
    });
    assert_eq!(tried, vec![0, 1, 2, 3, 4, 5]);
    assert_eq!(code, 1);
}

#[test]
fn third_candidate_wins_and_stops_the_search() {
    let (tried, code) = run(7, |i| classify(i == 2, "Permission denied"));
    assert_eq!(tried, vec![0, 1, 2]);
    assert_eq!(code, 0);
    assert_eq!(code, EXIT_CONNECTED);
}

#[test]
fn unroutable_host_times_out_or_is_refused() {
    let answers = [
        "ssh: connect to host 10.255.255.1 port 22: Connection timed out",
        "ssh: connect to host 10.255.255.1 port 2222: Connection refused",
    ];
    let (tried, code) = run(2, |i| {
        let o = classify(false, answers[i]);
        assert!(matches!(o, AttemptOutcome::TimedOut | AttemptOutcome::ConnectionRefused));
        o
    });
    assert_eq!(tried, vec![0, 1]);
    assert_eq!(code, 1);
}

#[test]
fn execution_errors_do_not_stop_the_search() {
    let (tried, code) = run(3, |i| {
        if i == 0 {
            AttemptOutcome::ExecutionError("cannot start ssh".to_string())
        } else {
            classify(i == 2, "")
        }
    });
    assert_eq!(tried, vec![0, 1, 2]);
    assert_eq!(code, 0);
}
