use prefault::memory::{
    accepts, count_resident, mlock_file_mappings, pages_of, prefault_file_mappings,
    prime_dentry_cache, print_fincore, release_call, resident_wait, successor_call, Batch,
    BatchStep, Call, FileTask, Operation, Outcome, Reply, Residency, Step, Wait, MAX_READAHEAD,
    PAGE_SIZE,
};

/// Answers every call with success; `size` is the size of each file.
fn obliging(call: Call, size: u64) -> Reply {
    match call {
        Call::Stat => Reply::Size(size),
        Call::Residency { len } => Reply::Pages(vec![1; pages_of(len) as usize]),
        _ => Reply::Done,
    }
}

/// Runs a task to its end and returns the calls it asked for and its outcome.
fn run(op: Operation, mut reply: impl FnMut(Call) -> Reply) -> (Vec<Call>, Outcome, FileTask) {
    let mut task = FileTask::new(op);
    let mut calls = Vec::new();
    let mut step = task.current();
    loop {
        match step {
            Step::Perform(call) => {
                calls.push(call);
                step = task.advance(&reply(call));
            }
            Step::Finished(outcome) => return (calls, outcome, task),
        }
        assert!(calls.len() <= 9, "a task took more than nine calls");
    }
}

#[test]
fn page_count_rounds_up() {
    assert_eq!(PAGE_SIZE, 4096);
    assert_eq!(pages_of(0), 0);
    assert_eq!(pages_of(1), 1);
    assert_eq!(pages_of(4095), 1);
    assert_eq!(pages_of(4096), 1);
    assert_eq!(pages_of(4097), 2);
    assert_eq!(pages_of(10 * 4096), 10);
    assert_eq!(pages_of(u64::MAX), u64::MAX / 4096 + 1);
}

#[test]
fn residency_counts_low_bits() {
    assert_eq!(count_resident(&[]), 0);
    assert_eq!(count_resident(&[1, 0, 3, 2, 0xff, 0xfe]), 3);
    let r = Residency::of(&[1, 0, 3, 2]);
    assert_eq!(r, Residency { resident: 2, pages: 4, percent: 50 });
}

#[test]
fn percentage_is_rounded_down() {
    assert_eq!(Residency::of(&[1, 0, 0]), Residency { resident: 1, pages: 3, percent: 33 });
    assert_eq!(Residency::of(&[1, 1, 0]), Residency { resident: 2, pages: 3, percent: 66 });
    assert_eq!(Residency::of(&[1, 1, 1]), Residency { resident: 3, pages: 3, percent: 100 });
    assert_eq!(Residency::of(&[0, 2, 4]), Residency { resident: 0, pages: 3, percent: 0 });
    let mut many = vec![0u8; 200];
    many[17] = 1;
    assert_eq!(Residency::of(&many), Residency { resident: 1, pages: 200, percent: 0 });
}

#[test]
fn no_pages_are_zero_percent() {
    assert_eq!(Residency::of(&[]), Residency { resident: 0, pages: 0, percent: 0 });
    assert_eq!(Residency::none(), Residency { resident: 0, pages: 0, percent: 0 });
}

#[test]
fn warm_reads_ahead_maps_advises_and_releases() {
    let (calls, outcome, task) = run(Operation::Warm, |c| obliging(c, 5000));
    assert_eq!(
        calls,
        vec![
            Call::Open,
            Call::ReadAhead { len: MAX_READAHEAD },
            Call::Stat,
            Call::MapFile { len: 5000, readable: true },
            Call::Advise { len: 5000 },
            Call::Unmap { len: 5000 },
            Call::Close,
        ]
    );
    assert_eq!(outcome, Outcome::Completed);
    assert!(!task.open && !task.mapped);
}

#[test]
fn read_ahead_is_bounded() {
    assert_eq!(MAX_READAHEAD, 10 * 1024 * 1024);
    let (calls, _, _) = run(Operation::Warm, |c| obliging(c, 1 << 40));
    assert_eq!(calls[1], Call::ReadAhead { len: 10 * 1024 * 1024 });
    assert_eq!(calls[3], Call::MapFile { len: 1 << 40, readable: true });
}

#[test]
fn pin_leaves_the_mapping_in_place() {
    let (calls, outcome, task) = run(Operation::Pin, |c| obliging(c, 4096));
    assert_eq!(
        calls,
        vec![
            Call::Open,
            Call::ReadAhead { len: MAX_READAHEAD },
            Call::Stat,
            Call::MapFile { len: 4096, readable: true },
            Call::Lock { len: 4096 },
            Call::Close,
        ]
    );
    assert_eq!(outcome, Outcome::Completed);
    assert!(!task.open);
    assert!(task.mapped);
}

#[test]
fn probe_maps_without_access_and_counts() {
    let (calls, outcome, _) = run(Operation::Probe, |c| match c {
        Call::Stat => Reply::Size(3 * 4096 + 1),
        Call::Residency { .. } => Reply::Pages(vec![1, 0, 0, 1]),
        _ => Reply::Done,
    });
    assert_eq!(
        calls,
        vec![
            Call::Open,
            Call::Stat,
            Call::MapFile { len: 3 * 4096 + 1, readable: false },
            Call::Residency { len: 3 * 4096 + 1 },
            Call::Unmap { len: 3 * 4096 + 1 },
            Call::Close,
        ]
    );
    assert_eq!(outcome, Outcome::Probed(Residency { resident: 2, pages: 4, percent: 50 }));
}

#[test]
fn touch_opens_stats_and_closes() {
    let (calls, outcome, _) = run(Operation::Touch, |c| obliging(c, 123));
    assert_eq!(calls, vec![Call::Open, Call::Stat, Call::Close]);
    assert_eq!(outcome, Outcome::Completed);
}

#[test]
fn probe_of_an_empty_file_is_zero_percent() {
    let (calls, outcome, task) = run(Operation::Probe, |c| obliging(c, 0));
    assert_eq!(calls, vec![Call::Open, Call::Stat, Call::Close]);
    assert_eq!(outcome, Outcome::Probed(Residency { resident: 0, pages: 0, percent: 0 }));
    assert_eq!(task.failed, None);
}

#[test]
fn warm_and_pin_map_an_empty_file_all_the_same() {
    let (warm, outcome, _) = run(Operation::Warm, |c| obliging(c, 0));
    assert_eq!(
        warm,
        vec![
            Call::Open,
            Call::ReadAhead { len: MAX_READAHEAD },
            Call::Stat,
            Call::MapFile { len: 0, readable: true },
            Call::Advise { len: 0 },
            Call::Unmap { len: 0 },
            Call::Close,
        ]
    );
    assert_eq!(outcome, Outcome::Completed);
    let (pin, pinned, task) = run(Operation::Pin, |c| obliging(c, 0));
    assert_eq!(pin[3], Call::MapFile { len: 0, readable: true });
    assert_eq!(pin[4], Call::Lock { len: 0 });
    assert_eq!(pinned, Outcome::Completed);
    assert!(task.mapped);
}

#[test]
fn refused_mapping_of_an_empty_file_is_reported() {
    for op in [Operation::Warm, Operation::Pin] {
        let (calls, outcome, task) = run(op, |c| match c {
            Call::MapFile { .. } => Reply::Failed,
            c => obliging(c, 0),
        });
        assert_eq!(
            calls,
            vec![
                Call::Open,
                Call::ReadAhead { len: MAX_READAHEAD },
                Call::Stat,
                Call::MapFile { len: 0, readable: true },
                Call::Close,
            ]
        );
        assert_eq!(outcome, Outcome::Failed(Call::MapFile { len: 0, readable: true }));
        assert!(!task.open && !task.mapped);
    }
}

#[test]
fn file_that_cannot_be_opened_is_given_up() {
    for op in [Operation::Touch, Operation::Warm, Operation::Pin, Operation::Probe] {
        let (calls, outcome, task) = run(op, |_| Reply::Failed);
        assert_eq!(calls, vec![Call::Open]);
        assert_eq!(outcome, Outcome::Failed(Call::Open));
        assert!(!task.open && !task.mapped);
    }
}

#[test]
fn failure_releases_what_is_held() {
    let (calls, outcome, task) = run(Operation::Pin, |c| match c {
        Call::Lock { .. } => Reply::Failed,
        c => obliging(c, 8192),
    });
    assert_eq!(
        calls,
        vec![
            Call::Open,
            Call::ReadAhead { len: MAX_READAHEAD },
            Call::Stat,
            Call::MapFile { len: 8192, readable: true },
            Call::Lock { len: 8192 },
            Call::Unmap { len: 8192 },
            Call::Close,
        ]
    );
    assert_eq!(outcome, Outcome::Failed(Call::Lock { len: 8192 }));
    assert!(!task.open && !task.mapped);

    let (calls, outcome, _) = run(Operation::Warm, |c| match c {
        Call::MapFile { .. } => Reply::Failed,
        c => obliging(c, 8192),
    });
    assert_eq!(calls.last(), Some(&Call::Close));
    assert_eq!(calls.len(), 5);
    assert_eq!(outcome, Outcome::Failed(Call::MapFile { len: 8192, readable: true }));

    let (calls, outcome, _) = run(Operation::Warm, |c| match c {
        Call::ReadAhead { .. } => Reply::Failed,
        c => obliging(c, 8192),
    });
    assert_eq!(calls, vec![Call::Open, Call::ReadAhead { len: MAX_READAHEAD }, Call::Close]);
    assert_eq!(outcome, Outcome::Failed(Call::ReadAhead { len: MAX_READAHEAD }));
}

#[test]
fn first_failure_is_the_one_reported() {
    let (calls, outcome, task) = run(Operation::Probe, |c| match c {
        Call::Residency { .. } | Call::Unmap { .. } | Call::Close => Reply::Failed,
        c => obliging(c, 4096),
    });
    assert_eq!(calls.len(), 6);
    assert_eq!(outcome, Outcome::Failed(Call::Residency { len: 4096 }));
    assert!(!task.open && !task.mapped);
}

#[test]
fn failed_close_of_a_pin_gives_the_mapping_back() {
    let (calls, outcome, task) = run(Operation::Pin, |c| match c {
        Call::Close => Reply::Failed,
        c => obliging(c, 4096),
    });
    assert_eq!(calls.last(), Some(&Call::Unmap { len: 4096 }));
    assert_eq!(outcome, Outcome::Failed(Call::Close));
    assert!(!task.mapped);
}

#[test]
fn reply_of_the_wrong_kind_is_a_failure() {
    assert!(accepts(Call::Open, &Reply::Done, 0));
    assert!(!accepts(Call::Open, &Reply::Size(1), 0));
    assert!(!accepts(Call::Open, &Reply::Failed, 0));
    assert!(accepts(Call::Stat, &Reply::Size(0), 77));
    assert!(!accepts(Call::Stat, &Reply::Done, 77));
    assert!(accepts(Call::Residency { len: 4097 }, &Reply::Pages(vec![0, 0]), 4097));
    assert!(!accepts(Call::Residency { len: 4097 }, &Reply::Pages(vec![0]), 4097));
    assert!(!accepts(Call::Residency { len: 4097 }, &Reply::Pages(vec![0, 0, 0]), 4097));
    assert!(!accepts(Call::Residency { len: 4097 }, &Reply::Done, 4097));
    let (_, outcome, _) = run(Operation::Probe, |c| match c {
        Call::Residency { .. } => Reply::Pages(vec![1]),
        c => obliging(c, 2 * 4096),
    });
    assert_eq!(outcome, Outcome::Failed(Call::Residency { len: 2 * 4096 }));
}

#[test]
fn successors_and_releases() {
    assert_eq!(successor_call(Operation::Probe, 0, Call::Open), Some(Call::Stat));
    assert_eq!(successor_call(Operation::Touch, 9, Call::Stat), Some(Call::Close));
    assert_eq!(successor_call(Operation::Pin, 9, Call::Lock { len: 9 }), Some(Call::Close));
    assert_eq!(successor_call(Operation::Warm, 9, Call::Close), None);
    assert_eq!(release_call(true, true, 5), Some(Call::Unmap { len: 5 }));
    assert_eq!(release_call(false, true, 5), Some(Call::Unmap { len: 5 }));
    assert_eq!(release_call(true, false, 5), Some(Call::Close));
    assert_eq!(release_call(false, false, 5), None);
}

#[test]
fn finished_task_stays_finished() {
    let (_, outcome, mut task) = run(Operation::Warm, |c| obliging(c, 1));
    let before = task;
    assert_eq!(task.advance(&Reply::Failed), Step::Finished(outcome));
    assert_eq!(task, before);
}

#[test]
fn batch_goes_on_after_a_file_that_fails() {
    let files = vec!["/unreadable".to_string(), "/valid".to_string()];
    let mut batch = prefault_file_mappings(files);
    let mut calls: Vec<(usize, Call)> = Vec::new();
    let mut step = batch.current();
    while let BatchStep::Perform { file, call } = step {
        calls.push((file, call));
        let reply = if file == 0 { Reply::Failed } else { obliging(call, 4096) };
        step = batch.advance(&reply);
    }
    assert_eq!(
        calls,
        vec![
            (0, Call::Open),
            (1, Call::Open),
            (1, Call::ReadAhead { len: MAX_READAHEAD }),
            (1, Call::Stat),
            (1, Call::MapFile { len: 4096, readable: true }),
            (1, Call::Advise { len: 4096 }),
            (1, Call::Unmap { len: 4096 }),
            (1, Call::Close),
        ]
    );
    assert_eq!(batch.outcomes, vec![Outcome::Failed(Call::Open), Outcome::Completed]);
}

#[test]
fn batch_reports_every_file_in_order() {
    let files: Vec<String> = (0..5).map(|i| format!("/f{}", i)).collect();
    let mut batch = print_fincore(files.clone());
    let mut step = batch.current();
    let mut replies = 0;
    while let BatchStep::Perform { file, call } = step {
        let reply = match call {
            Call::Stat => Reply::Size(file as u64 * 4096),
            Call::MapFile { .. } if file == 3 => Reply::Failed,
            Call::Residency { len } => Reply::Pages(vec![1; pages_of(len) as usize]),
            _ => Reply::Done,
        };
        step = batch.advance(&reply);
        replies += 1;
        assert!(replies <= 50);
    }
    assert_eq!(batch.files, files);
    assert_eq!(
        batch.outcomes,
        vec![
            Outcome::Probed(Residency { resident: 0, pages: 0, percent: 0 }),
            Outcome::Probed(Residency { resident: 1, pages: 1, percent: 100 }),
            Outcome::Probed(Residency { resident: 2, pages: 2, percent: 100 }),
            Outcome::Failed(Call::MapFile { len: 3 * 4096, readable: false }),
            Outcome::Probed(Residency { resident: 4, pages: 4, percent: 100 }),
        ]
    );
    assert_eq!(batch.advance(&Reply::Done), BatchStep::Finished);
    assert_eq!(batch.outcomes.len(), 5);
}

#[test]
fn batch_without_files_is_finished() {
    let mut batch = prime_dentry_cache(Vec::new());
    assert_eq!(batch.current(), BatchStep::Finished);
    assert_eq!(batch.advance(&Reply::Done), BatchStep::Finished);
    assert!(batch.outcomes.is_empty());
}

#[test]
fn batches_begin_with_open_on_the_first_file() {
    let files = vec!["/a".to_string()];
    let touch = prime_dentry_cache(files.clone());
    assert_eq!(touch.op, Operation::Touch);
    assert_eq!(touch.current(), BatchStep::Perform { file: 0, call: Call::Open });
    let warm = prefault_file_mappings(files.clone());
    assert_eq!(warm.op, Operation::Warm);
    let pin = mlock_file_mappings(files.clone(), 2);
    assert_eq!((pin.op, pin.verbosity), (Operation::Pin, 2));
    let probe = print_fincore(files.clone());
    assert_eq!(probe.op, Operation::Probe);
    assert_eq!(probe.files, files);
    assert_eq!(probe.task, FileTask::new(Operation::Probe));
}

#[test]
fn files_are_named_as_the_operation_asks() {
    assert!(prime_dentry_cache(Vec::new()).announces());
    assert!(prefault_file_mappings(Vec::new()).announces());
    assert!(!print_fincore(Vec::new()).announces());
    assert!(!mlock_file_mappings(Vec::new(), 0).announces());
    assert!(!mlock_file_mappings(Vec::new(), 1).announces());
    assert!(mlock_file_mappings(Vec::new(), 2).announces());
    assert!(Batch::new(Operation::Pin, Vec::new(), 255).announces());
}

#[test]
fn every_task_ends_within_nine_replies() {
    let replies = [
        || Reply::Done,
        || Reply::Failed,
        || Reply::Size(0),
        || Reply::Size(4096),
        || Reply::Pages(vec![1]),
    ];
    for op in [Operation::Touch, Operation::Warm, Operation::Pin, Operation::Probe] {
        for code in 0..5usize.pow(9) {
            let mut task = FileTask::new(op);
            let mut n = code;
            let mut taken = 0;
            while let Step::Perform(_) = task.current() {
                task.advance(&replies[n % 5]());
                n /= 5;
                taken += 1;
                assert!(taken <= 9);
            }
            assert!(!task.open);
            if task.mapped {
                assert_eq!(op, Operation::Pin);
                assert_eq!(task.failed, None);
            }
        }
    }
}

#[test]
fn calls_have_the_names_of_system_calls() {
    assert_eq!(Call::Open.name(), "open");
    assert_eq!(Call::ReadAhead { len: 1 }.name(), "readahead");
    assert_eq!(Call::Stat.name(), "fstat");
    assert_eq!(Call::MapFile { len: 1, readable: false }.name(), "mmap");
    assert_eq!(Call::Advise { len: 1 }.name(), "madvise");
    assert_eq!(Call::Lock { len: 1 }.name(), "mlock");
    assert_eq!(Call::Residency { len: 1 }.name(), "mincore");
    assert_eq!(Call::Unmap { len: 1 }.name(), "munmap");
    assert_eq!(Call::Close.name(), "close");
}

#[test]
fn probed_file_is_reported_in_columns() {
    let r = Residency { resident: 12, pages: 24, percent: 50 };
    assert_eq!(r.line("/lib/libc.so", "98.3 kB"), " 50%    12 /lib/libc.so (98.3 kB)");
    assert_eq!(r.line("/lib/libc.so", "98.3 kB"), format!("{:3}% {:5} {} ({})", 50, 12, "/lib/libc.so", "98.3 kB"));
    let full = Residency { resident: 1234567, pages: 1234567, percent: 100 };
    assert_eq!(full.line("/big", "5.06 GB"), "100% 1234567 /big (5.06 GB)");
    assert_eq!(Residency::none().line("", ""), "  0%     0  ()");
}

#[test]
fn pinning_process_stays_until_told_to_stop() {
    assert_eq!(resident_wait(true, false, true), Wait::Sleep(1000));
    assert_eq!(resident_wait(true, false, false), Wait::Sleep(1000));
    assert_eq!(resident_wait(true, true, true), Wait::Sleep(1000));
    assert_eq!(resident_wait(true, true, false), Wait::Exit);
    assert_eq!(resident_wait(false, false, true), Wait::Sleep(u64::MAX));
    assert_eq!(resident_wait(false, false, false), Wait::Sleep(u64::MAX));
    assert_eq!(resident_wait(false, true, true), Wait::Exit);
    assert_eq!(resident_wait(false, true, false), Wait::Exit);
}
