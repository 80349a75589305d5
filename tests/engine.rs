use std::collections::HashMap;

use rfcp::{
    copy_data, decide_destination, destination_paths, file_name, get_reative_path,
    rewrite_destination, CopyStats, CopyTask, DestinationDecision, DestinationState,
    EntryMeta, FileJob, JobAction, JobEvent, JobState, Scanner, SourceFile, Timestamp, WorkQueue,
    DEFAULT_BUF_SIZE, DEFAULT_THREAD_COUNT,
};

fn ts(secs: i64) -> Option<Timestamp> {
    Some(Timestamp { secs, nanos: 0 })
}

fn source(path: &str, size: u64, modified: Option<Timestamp>) -> SourceFile {
    SourceFile { file_path: path.to_string(), size, modified }
}

/// Copies `src` through a job with a buffer of `b` bytes, as a worker does against real
/// files; returns the destination bytes and the number of read/write cycles.
fn run_copy(src: &[u8], b: usize, stats: &mut CopyStats) -> (Vec<u8>, usize) {
    let (completed, dst, writes) = drive_job(src, b, &DestinationDecision::CreateNew("/d/x".to_string()), None, stats);
    assert!(completed);
    (dst, writes.len())
}

#[test]
fn defaults() {
    assert_eq!(DEFAULT_BUF_SIZE, 10240);
    assert_eq!(DEFAULT_THREAD_COUNT, 3);
}

#[test]
fn short_final_read_copies_25000_bytes_in_three_cycles() {
    let src: Vec<u8> = (0..25000u32).map(|i| (i % 251) as u8).collect();
    let mut stats = CopyStats::new(25000);
    let (dst, cycles) = run_copy(&src, 10000, &mut stats);
    assert_eq!(cycles, 3);
    assert_eq!(dst.len(), 25000);
    assert_eq!(dst, src);
    assert_eq!(stats.bytes_copied, 25000);
    assert!(stats.is_complete());
}

#[test]
fn short_final_read_writes_each_chunk_at_its_offset() {
    let src: Vec<u8> = (0..25000u32).map(|i| (i % 251) as u8).collect();
    let mut stats = CopyStats::new(25000);
    let (_, _, writes) = drive_job(&src, 10000, &DestinationDecision::CreateNew("/d/x".to_string()), None, &mut stats);
    assert_eq!(writes, vec![(0, 10000), (10000, 10000), (20000, 5000)]);
}

#[test]
fn copy_data_advances_by_bytes_read() {
    let mut task = CopyTask::new(10);
    let first = copy_data(&mut task, vec![1; 10]).unwrap();
    assert_eq!(first.offset, 0);
    let second = copy_data(&mut task, vec![2, 3, 4]).unwrap();
    assert_eq!(second.offset, 10);
    assert_eq!(second.data, vec![2, 3, 4]);
    assert_eq!(task.offset, 13);
    assert!(copy_data(&mut task, Vec::new()).is_none());
    assert_eq!(task.offset, 13);
}

#[test]
fn offset_resets_for_each_file_on_one_worker() {
    let a: Vec<u8> = (0..7000u32).map(|i| (i % 13) as u8).collect();
    let b: Vec<u8> = (0..2500u32).map(|i| (i % 7) as u8).collect();
    let mut stats = CopyStats::new(9500);
    let (da, _) = run_copy(&a, 3000, &mut stats);
    let (db, _) = run_copy(&b, 3000, &mut stats);
    assert_eq!(da, a);
    assert_eq!(db, b);
    assert_eq!(stats.bytes_copied, 9500);
}

#[test]
fn size_multiple_of_buffer_copies_exactly() {
    let src = vec![9u8; 20000];
    let mut stats = CopyStats::new(20000);
    let (dst, cycles) = run_copy(&src, 10000, &mut stats);
    assert_eq!(cycles, 2);
    assert_eq!(dst, src);
}

#[test]
fn empty_file_copies_in_zero_cycles() {
    let mut stats = CopyStats::new(0);
    let (dst, cycles) = run_copy(&[], 10, &mut stats);
    assert_eq!(cycles, 0);
    assert!(dst.is_empty());
}

#[test]
fn exact_duplicate_of_1mb_file_is_skipped() {
    let size = 1024 * 1024;
    let decision = decide_destination(
        "/backup/big.bin".to_string(),
        size,
        ts(1_700_000_000),
        DestinationState::Present { size, modified: ts(1_700_000_000) },
    );
    assert!(matches!(decision, DestinationDecision::Skip));
    let mut stats = CopyStats::new(size);
    stats.record_skip(size);
    assert_eq!(stats.bytes_copied, 0);
    assert_eq!(stats.files_copied, 1);
    assert!(stats.is_complete());
}

#[test]
fn missing_destination_is_created() {
    let d = decide_destination("/b/x".to_string(), 3, ts(5), DestinationState::Missing);
    match d {
        DestinationDecision::CreateNew(p) => assert_eq!(p, "/b/x"),
        other => panic!("unexpected {:?}", other),
    }
}

#[test]
fn stale_destination_is_recreated() {
    let cases = [
        DestinationState::Present { size: 4, modified: ts(5) },
        DestinationState::Present { size: 3, modified: ts(6) },
        DestinationState::Present { size: 3, modified: Some(Timestamp { secs: 5, nanos: 1 }) },
        DestinationState::Present { size: 3, modified: None },
        DestinationState::Unreadable,
    ];
    for state in cases {
        match decide_destination("/b/x".to_string(), 3, ts(5), state) {
            DestinationDecision::Recreate(p) => assert_eq!(p, "/b/x"),
            other => panic!("unexpected {:?}", other),
        }
    }
}

#[test]
fn unknown_source_time_is_never_skipped() {
    let d = decide_destination("/b/x".to_string(), 3, None, DestinationState::Present { size: 3, modified: ts(5) });
    assert!(matches!(d, DestinationDecision::Recreate(_)));
}

#[test]
fn second_run_writes_nothing() {
    let files = vec![source("/s/a", 10, ts(1)), source("/s/b", 25, ts(2))];
    let mut stats = CopyStats::new(35);
    for f in &files {
        let state = DestinationState::Present { size: f.size, modified: f.modified };
        let d = decide_destination("/d/x".to_string(), f.size, f.modified, state);
        assert!(matches!(d, DestinationDecision::Skip));
        stats.record_skip(f.size);
    }
    assert_eq!(stats.bytes_copied, 0);
    assert_eq!(stats.bytes_done, 35);
    assert_eq!(stats.files_copied, 2);
    assert!(stats.is_complete());
}

#[test]
fn queue_hands_out_each_file_once() {
    let files = vec![source("/s/a", 1, None), source("/s/b", 2, None), source("/s/c", 3, None)];
    let mut q = WorkQueue::new(files);
    assert_eq!(q.len(), 3);
    let mut seen = Vec::new();
    while let Some(f) = q.take_next() {
        seen.push(f.file_path);
    }
    assert_eq!(seen, vec!["/s/c", "/s/b", "/s/a"]);
    assert!(q.take_next().is_none());
    assert_eq!(q.len(), 0);
}

#[test]
fn queue_shared_by_workers_hands_out_each_file_once() {
    let files: Vec<SourceFile> = (0..200).map(|i| source(&format!("/s/{}", i), i, None)).collect();
    for workers in 1..6usize {
        let mut q = WorkQueue::new(files.clone());
        let mut per_worker: Vec<Vec<String>> = vec![Vec::new(); workers];
        let mut done = vec![false; workers];
        let mut turn: usize = 0;
        while done.iter().any(|d| !d) {
            // an uneven interleaving: worker (turn * 7) % workers takes next
            let w = (turn * 7 + turn / 3) % workers;
            turn += 1;
            if done[w] {
                continue;
            }
            match q.take_next() {
                Some(f) => per_worker[w].push(f.file_path),
                None => done[w] = true,
            }
        }
        let mut all: Vec<String> = per_worker.into_iter().flatten().collect();
        assert_eq!(all.len(), 200);
        all.sort();
        all.dedup();
        assert_eq!(all.len(), 200);
    }
}

#[test]
fn queue_total_size() {
    let q = WorkQueue::new(vec![source("/s/a", 10, None), source("/s/b", 32, None)]);
    assert_eq!(q.total_size(), Some(42));
    assert_eq!(WorkQueue::new(Vec::new()).total_size(), Some(0));
    let big = WorkQueue::new(vec![source("/s/a", u64::MAX, None), source("/s/b", 1, None)]);
    assert_eq!(big.total_size(), None);
}

#[test]
fn counters_accumulate() {
    let mut stats = CopyStats::new(100);
    stats.add_bytes(40);
    stats.add_bytes(20);
    stats.increment_files();
    assert_eq!(stats.bytes_copied, 60);
    assert_eq!(stats.bytes_done, 60);
    assert_eq!(stats.files_copied, 1);
    assert!(!stats.is_complete());
    stats.record_skip(40);
    assert_eq!(stats.bytes_copied, 60);
    assert_eq!(stats.bytes_done, 100);
    assert_eq!(stats.files_copied, 2);
    assert!(stats.is_complete());
}

fn dir_meta() -> EntryMeta {
    EntryMeta { is_file: false, is_dir: true, len: 4096, modified: ts(1) }
}

fn file_meta(len: u64) -> EntryMeta {
    EntryMeta { is_file: true, is_dir: false, len, modified: ts(2) }
}

#[test]
fn empty_source_directory_has_no_files() {
    let mut scan = Scanner::start("/src".to_string(), dir_meta());
    let root = scan.next_dir().unwrap();
    assert!(root.is_root);
    assert_eq!(root.path, "/src");
    assert!(scan.next_dir().is_none());
    let files = scan.into_files();
    assert!(files.is_empty());
    let q = WorkQueue::new(files);
    assert_eq!(q.total_size(), Some(0));
}

#[test]
fn scan_walks_nested_directories() {
    let mut scan = Scanner::start("/src".to_string(), dir_meta());
    let root = scan.next_dir().unwrap();
    scan.add_entry(&root, &"a.txt".to_string(), Some(file_meta(5)));
    scan.add_entry(&root, &"sub".to_string(), Some(dir_meta()));
    scan.add_entry(&root, &"gone".to_string(), None);
    scan.add_entry(&root, &"fifo".to_string(), Some(EntryMeta { is_file: false, is_dir: false, len: 0, modified: None }));
    let sub = scan.next_dir().unwrap();
    assert_eq!(sub.path, "/src/sub");
    assert!(!sub.is_root);
    assert!(!sub.aborts_on_unreadable());
    assert!(root.aborts_on_unreadable());
    scan.add_entry(&sub, &"b.txt".to_string(), Some(file_meta(7)));
    assert!(scan.next_dir().is_none());
    let files = scan.into_files();
    let paths: Vec<&str> = files.iter().map(|f| f.file_path.as_str()).collect();
    assert_eq!(paths, vec!["/src/a.txt", "/src/sub/b.txt"]);
    assert_eq!(files[1].size, 7);
    assert_eq!(get_reative_path(&files[1], &"/src".to_string()), "sub/b.txt");
}

#[test]
fn single_file_source_is_one_file() {
    let mut scan = Scanner::start("/src/a.txt".to_string(), file_meta(25000));
    assert!(scan.next_dir().is_none());
    let files = scan.into_files();
    assert_eq!(files.len(), 1);
    assert_eq!(files[0].file_path, "/src/a.txt");
    assert_eq!(files[0].size, 25000);
    assert_eq!(files[0].modified, ts(2));
}

/// Drives a job against in-memory files the way a worker drives it against real ones.
fn drive_job(src: &[u8], b: usize, decision: &DestinationDecision, fail_at_write: Option<usize>, stats: &mut CopyStats) -> (bool, Vec<u8>, Vec<(u64, usize)>) {
    let (mut job, mut action) = FileJob::start(decision, src.len() as u64, b, stats);
    let mut dst: Vec<u8> = Vec::new();
    let mut writes: Vec<(u64, usize)> = Vec::new();
    loop {
        let event = match action {
            JobAction::Finish { completed } => return (completed, dst, writes),
            JobAction::Open => JobEvent::Opened,
            JobAction::Read { offset, len } => {
                let start = (offset as usize).min(src.len());
                let end = (start + len).min(src.len());
                JobEvent::ReadDone(src[start..end].to_vec())
            }
            JobAction::Write(d) => {
                if Some(writes.len()) == fail_at_write {
                    JobEvent::Failed
                } else {
                    writes.push((d.offset, d.data.len()));
                    let at = d.offset as usize;
                    if dst.len() < at + d.data.len() {
                        dst.resize(at + d.data.len(), 0);
                    }
                    dst[at..at + d.data.len()].copy_from_slice(&d.data);
                    JobEvent::Written
                }
            }
            JobAction::SetModified => JobEvent::Stamped,
        };
        action = job.on_event(event, stats);
    }
}

#[test]
fn job_copies_file_and_counts_it() {
    let src: Vec<u8> = (0..25000u32).map(|i| (i % 97) as u8).collect();
    let mut stats = CopyStats::new(25000);
    let (completed, dst, _) = drive_job(&src, 10000, &DestinationDecision::CreateNew("/d/a".to_string()), None, &mut stats);
    assert!(completed);
    assert_eq!(dst, src);
    assert_eq!(stats.bytes_copied, 25000);
    assert_eq!(stats.files_copied, 1);
}

#[test]
fn job_for_skipped_file_writes_nothing() {
    let src = vec![1u8; 300];
    let mut stats = CopyStats::new(300);
    let (completed, dst, _) = drive_job(&src, 128, &DestinationDecision::Skip, None, &mut stats);
    assert!(completed);
    assert!(dst.is_empty());
    assert_eq!(stats.bytes_copied, 0);
    assert_eq!(stats.bytes_done, 300);
    assert_eq!(stats.files_copied, 1);
}

#[test]
fn job_failing_mid_copy_is_abandoned_and_not_counted() {
    let src = vec![7u8; 1000];
    let mut stats = CopyStats::new(1000);
    let (completed, dst, _) = drive_job(&src, 300, &DestinationDecision::Recreate("/d/a".to_string()), Some(1), &mut stats);
    assert!(!completed);
    assert_eq!(dst.len(), 300);
    assert_eq!(stats.files_copied, 0);
    assert_eq!(stats.bytes_copied, 300);
    assert_eq!(stats.bytes_done, 300);
}

#[test]
fn job_failing_to_open_is_abandoned() {
    let mut stats = CopyStats::new(10);
    let (mut job, action) = FileJob::start(&DestinationDecision::CreateNew("/d/a".to_string()), 10, 4, &mut stats);
    assert!(matches!(action, JobAction::Open));
    let next = job.on_event(JobEvent::Failed, &mut stats);
    assert!(matches!(next, JobAction::Finish { completed: false }));
    assert!(matches!(job.state, JobState::Abandoned));
    assert_eq!(stats.files_copied, 0);
}

#[test]
fn job_rejects_event_out_of_turn() {
    let mut stats = CopyStats::new(10);
    let (mut job, _) = FileJob::start(&DestinationDecision::CreateNew("/d/a".to_string()), 10, 4, &mut stats);
    let next = job.on_event(JobEvent::Stamped, &mut stats);
    assert!(matches!(next, JobAction::Finish { completed: false }));
    assert_eq!(stats.files_copied, 0);
}

#[test]
fn every_scanned_file_lands_at_its_relative_path() {
    let mut contents: HashMap<String, Vec<u8>> = HashMap::new();
    contents.insert("/src/tree/a.txt".to_string(), vec![1; 2500]);
    contents.insert("/src/tree/sub/b.txt".to_string(), vec![2; 999]);
    contents.insert("/src/tree/sub/deeper/c.bin".to_string(), Vec::new());

    let mut scan = Scanner::start("/src/tree".to_string(), dir_meta());
    while let Some(dir) = scan.next_dir() {
        let prefix = format!("{}/", dir.path);
        let mut children: Vec<String> = Vec::new();
        for path in contents.keys() {
            if let Some(rest) = path.strip_prefix(&prefix) {
                let child = rest.split('/').next().unwrap().to_string();
                if !children.contains(&child) {
                    children.push(child);
                }
            }
        }
        for child in children {
            let full = format!("{}{}", prefix, child);
            let meta = match contents.get(&full) {
                Some(bytes) => file_meta(bytes.len() as u64),
                None => dir_meta(),
            };
            scan.add_entry(&dir, &child, Some(meta));
        }
    }
    let files = scan.into_files();
    assert_eq!(files.len(), 3);

    let destination = rewrite_destination("/src/tree".to_string(), "/backup".to_string());
    let mut queue = WorkQueue::new(files);
    let mut stats = CopyStats::new(queue.total_size().unwrap());
    let mut written: HashMap<String, Vec<u8>> = HashMap::new();
    while let Some(f) = queue.take_next() {
        let rel = get_reative_path(&f, &"/src/tree".to_string());
        let name = file_name(&f.file_path);
        let (_, target) = destination_paths(&rel, &name, &destination);
        assert_eq!(target, format!("/backup/tree/{}", rel));
        let src = contents[&f.file_path].clone();
        let (completed, dst, _) = drive_job(&src, 1000, &DestinationDecision::CreateNew(target.clone()), None, &mut stats);
        assert!(completed);
        written.insert(target, dst);
    }
    assert_eq!(written["/backup/tree/a.txt"].len(), 2500);
    assert_eq!(written["/backup/tree/sub/b.txt"], vec![2; 999]);
    assert!(written["/backup/tree/sub/deeper/c.bin"].is_empty());
    assert_eq!(stats.files_copied, 3);
    assert!(stats.is_complete());
}
