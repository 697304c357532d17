use cluster_compute::framing::encode_frame;
use cluster_compute::naming::{decimal, executable_name};
use cluster_compute::worker::{ClientReceiver, WorkerAction, WorkerEvent};

struct Round {
    compiles: Vec<String>,
    runs: Vec<String>,
    reply: Option<Vec<u8>>,
    removed: Vec<String>,
}

/// Drives one `Execute` round; `taken` lists paths that already exist on disk.
fn execute_round(w: &mut ClientReceiver, program: &[u8], data: &[u8], taken: &[&str], run_ok: bool) -> Round {
    let mut r = Round { compiles: vec![], runs: vec![], reply: None, removed: vec![] };
    assert!(matches!(w.step(WorkerEvent::Connected), WorkerAction::ReadCommand));
    assert!(matches!(w.step(WorkerEvent::CommandByte(1)), WorkerAction::ReadFrame));
    assert!(matches!(w.step(WorkerEvent::Frame(program.to_vec())), WorkerAction::ReadFrame));
    let mut a = w.step(WorkerEvent::Frame(data.to_vec()));
    loop {
        a = match a {
            WorkerAction::CreateExclusive { path } => {
                if taken.contains(&path.as_str()) {
                    w.step(WorkerEvent::CreateFailed)
                } else {
                    w.step(WorkerEvent::Created)
                }
            }
            WorkerAction::Compile { path, source } => {
                assert_eq!(source, program.to_vec());
                r.compiles.push(path);
                w.step(WorkerEvent::Compiled(true))
            }
            WorkerAction::Run { path, input } => {
                assert_eq!(input, encode_frame(data));
                r.runs.push(path);
                if run_ok {
                    w.step(WorkerEvent::Output(Some(b"out".to_vec())))
                } else {
                    w.step(WorkerEvent::Output(None))
                }
            }
            WorkerAction::Reply { bytes } => {
                r.reply = Some(bytes);
                w.step(WorkerEvent::Written)
            }
            WorkerAction::Remove { path } => {
                r.removed.push(path);
                w.step(WorkerEvent::Removed)
            }
            WorkerAction::Dial => break,
            _ => panic!("unexpected action"),
        };
    }
    r
}

#[test]
fn wait_then_redial() {
    let mut w = ClientReceiver::new();
    assert!(matches!(w.step(WorkerEvent::Connected), WorkerAction::ReadCommand));
    assert!(matches!(w.step(WorkerEvent::CommandByte(0)), WorkerAction::Dial));
    assert!(!w.is_finished());
}

#[test]
fn unknown_command_then_redial() {
    let mut w = ClientReceiver::new();
    w.step(WorkerEvent::Connected);
    assert!(matches!(w.step(WorkerEvent::CommandByte(7)), WorkerAction::Dial));
    assert!(matches!(w.step(WorkerEvent::ConnectFailed), WorkerAction::Dial));
}

#[test]
fn terminate_exits_with_cached_paths() {
    let mut w = ClientReceiver::new();
    execute_round(&mut w, b"prog", b"x", &[], true);
    w.step(WorkerEvent::Connected);
    match w.step(WorkerEvent::CommandByte(2)) {
        WorkerAction::Exit { paths } => assert_eq!(paths, vec!["./executable".to_string()]),
        _ => panic!("expected Exit"),
    }
    assert!(w.is_finished());
    assert!(matches!(w.step(WorkerEvent::Connected), WorkerAction::Exit { .. }));
}

#[test]
fn read_failure_ends_round() {
    let mut w = ClientReceiver::new();
    w.step(WorkerEvent::Connected);
    w.step(WorkerEvent::CommandByte(1));
    assert!(matches!(w.step(WorkerEvent::IoFailed), WorkerAction::Dial));
    assert!(matches!(w.step(WorkerEvent::Connected), WorkerAction::ReadCommand));
}

#[test]
fn result_is_framed() {
    let mut w = ClientReceiver::new();
    let r = execute_round(&mut w, b"prog", b"abanana", &[], true);
    assert_eq!(r.reply, Some(encode_frame(b"out")));
}

#[test]
fn same_program_compiles_once() {
    let mut w = ClientReceiver::new();
    let mut compiles = 0;
    for i in 0..4u8 {
        let r = execute_round(&mut w, b"prog", &[b'a', i], &[], true);
        compiles += r.compiles.len();
        assert_eq!(r.runs, vec!["./executable".to_string()]);
        assert!(r.reply.is_some());
    }
    assert_eq!(compiles, 1);
}

#[test]
fn different_programs_compile_twice() {
    let mut w = ClientReceiver::new();
    let a = execute_round(&mut w, b"one", b"x", &[], true);
    let b = execute_round(&mut w, b"two", b"x", &["./executable"], true);
    assert_eq!(a.compiles, vec!["./executable".to_string()]);
    assert_eq!(b.compiles, vec!["./executable0".to_string()]);
}

#[test]
fn failed_run_evicts_and_recompiles() {
    let mut w = ClientReceiver::new();
    let first = execute_round(&mut w, b"prog", b"x", &[], false);
    assert_eq!(first.compiles.len(), 1);
    assert_eq!(first.removed, vec!["./executable".to_string()]);
    assert!(first.reply.is_none());
    let second = execute_round(&mut w, b"prog", b"x", &[], true);
    assert_eq!(second.compiles.len(), 1);
    assert!(second.reply.is_some());
}

#[test]
fn failed_build_removes_file_and_caches_nothing() {
    let mut w = ClientReceiver::new();
    w.step(WorkerEvent::Connected);
    w.step(WorkerEvent::CommandByte(1));
    w.step(WorkerEvent::Frame(b"bad".to_vec()));
    assert!(matches!(w.step(WorkerEvent::Frame(vec![])), WorkerAction::CreateExclusive { .. }));
    assert!(matches!(w.step(WorkerEvent::Created), WorkerAction::Compile { .. }));
    match w.step(WorkerEvent::Compiled(false)) {
        WorkerAction::Remove { path } => assert_eq!(path, "./executable"),
        _ => panic!("expected Remove"),
    }
    assert!(matches!(w.step(WorkerEvent::Removed), WorkerAction::Dial));
    let again = execute_round(&mut w, b"bad", b"", &[], true);
    assert_eq!(again.compiles.len(), 1);
}

#[test]
fn probing_skips_stale_files() {
    let mut w = ClientReceiver::new();
    let r = execute_round(&mut w, b"prog", b"x", &["./executable", "./executable0", "./executable1"], true);
    assert_eq!(r.compiles, vec!["./executable2".to_string()]);
}

#[test]
fn executable_names() {
    assert_eq!(executable_name(0), "./executable");
    assert_eq!(executable_name(1), "./executable0");
    assert_eq!(executable_name(2), "./executable1");
    assert_eq!(executable_name(11), "./executable10");
    assert_eq!(executable_name(1235), "./executable1234");
}

#[test]
fn failed_result_write_evicts_and_recompiles() {
    let mut w = ClientReceiver::new();
    w.step(WorkerEvent::Connected);
    w.step(WorkerEvent::CommandByte(1));
    w.step(WorkerEvent::Frame(b"prog".to_vec()));
    assert!(matches!(w.step(WorkerEvent::Frame(b"x".to_vec())), WorkerAction::CreateExclusive { .. }));
    assert!(matches!(w.step(WorkerEvent::Created), WorkerAction::Compile { .. }));
    assert!(matches!(w.step(WorkerEvent::Compiled(true)), WorkerAction::Run { .. }));
    assert!(matches!(w.step(WorkerEvent::Output(Some(vec![1]))), WorkerAction::Reply { .. }));
    match w.step(WorkerEvent::IoFailed) {
        WorkerAction::Remove { path } => assert_eq!(path, "./executable"),
        _ => panic!("expected Remove"),
    }
    assert!(matches!(w.step(WorkerEvent::Removed), WorkerAction::Dial));
    let again = execute_round(&mut w, b"prog", b"x", &[], true);
    assert_eq!(again.compiles, vec!["./executable".to_string()]);
}

#[test]
fn decimal_digits_of_numbers() {
    assert_eq!(decimal(0), "0");
    assert_eq!(decimal(7), "7");
    assert_eq!(decimal(10), "10");
    assert_eq!(decimal(90210), "90210");
    assert_eq!(decimal(usize::MAX), usize::MAX.to_string());
}
