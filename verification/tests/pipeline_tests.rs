use ulp_extractor::classify::ClassificationConfig;
use ulp_extractor::dedup::{dedup, summarize, Aggregator, PREVIEW_LEN};
use ulp_extractor::extract::ExtractionMode;
use ulp_extractor::config::Persistence;
use ulp_extractor::output::{arrival_text, closing, open_mode, render_output, OpenMode};
use ulp_extractor::pool::{chunk_size, clamp_workers, distribute, plan_chunks};
use ulp_extractor::scan::{is_eligible, select_files};
use ulp_extractor::worker::{scan_files, ScanConfig};

fn words(items: &[&str]) -> Vec<String> {
    items.iter().map(|s| s.to_string()).collect()
}

fn sorted(mut v: Vec<String>) -> Vec<String> {
    v.sort();
    v
}

#[test]
fn dedup_keeps_the_first_occurrence() {
    let stream = words(&["b:1", "a:1", "b:1", "c:1", "a:1", "b:1"]);
    assert_eq!(dedup(&stream), words(&["b:1", "a:1", "c:1"]));
    assert_eq!(dedup(&Vec::new()), Vec::<String>::new());
    assert_eq!(dedup(&words(&["x", "x", "x"])), words(&["x"]));
}

#[test]
fn dedup_is_idempotent() {
    let stream = words(&["b:1", "a:1", "b:1", "", "c:1", "a:1", "", "B:1"]);
    let once = dedup(&stream);
    let twice = dedup(&once);
    assert_eq!(once, twice);
    assert_eq!(once, words(&["b:1", "a:1", "", "c:1", "B:1"]));
}

#[test]
fn dedup_set_ignores_order() {
    let one = words(&["a", "b", "c", "a", "b"]);
    let other = words(&["b", "a", "b", "c", "a"]);
    assert_ne!(dedup(&one), dedup(&other));
    assert_eq!(sorted(dedup(&one)), sorted(dedup(&other)));
}

#[test]
fn aggregator_takes_each_record_once() {
    let mut agg = Aggregator::new(3);
    assert_eq!(agg.progress(), (0, 3));
    assert!(agg.accept("a:1".to_string()));
    assert!(agg.accept("b:1".to_string()));
    assert!(!agg.accept("a:1".to_string()));
    assert!(agg.accept("c:1".to_string()));
    assert!(!agg.accept("c:1".to_string()));
    assert_eq!(agg.unique_count(), 3);
    assert_eq!(agg.unique(), &words(&["a:1", "b:1", "c:1"]));
    assert_eq!(agg.into_records(), words(&["a:1", "b:1", "c:1"]));
}

#[test]
fn progress_counts_records_against_files() {
    let mut agg = Aggregator::new(2);
    agg.accept("a".to_string());
    assert_eq!(agg.progress(), (1, 2));
    agg.accept("a".to_string());
    assert_eq!(agg.progress(), (2, 2));
    agg.accept("b".to_string());
    // more records than files: the fraction passes one
    assert_eq!(agg.progress(), (3, 2));
}

#[test]
fn summary_holds_the_first_ten() {
    assert_eq!(PREVIEW_LEN, 10);
    let many: Vec<String> = (0..25).map(|i| format!("user{}:pw", i)).collect();
    let s = summarize(&many);
    assert_eq!(s.total_unique_count, 25);
    assert_eq!(s.preview, many[..10].to_vec());
    let few = words(&["a", "b", "c"]);
    let s = summarize(&few);
    assert_eq!(s.total_unique_count, 3);
    assert_eq!(s.preview, few);
    let s = summarize(&Vec::new());
    assert_eq!(s.total_unique_count, 0);
    assert_eq!(s.preview, Vec::<String>::new());
    let ten: Vec<String> = (0..10).map(|i| format!("{}", i)).collect();
    assert_eq!(summarize(&ten).preview, ten);
}

#[test]
fn workers_are_clamped() {
    assert_eq!(clamp_workers(4, 10), 4);
    assert_eq!(clamp_workers(16, 10), 10);
    assert_eq!(clamp_workers(0, 10), 1);
    assert_eq!(clamp_workers(4, 0), 1);
    assert_eq!(clamp_workers(0, 0), 1);
    assert_eq!(clamp_workers(1, 1), 1);
    assert_eq!(clamp_workers(usize::MAX, 3), 3);
}

#[test]
fn chunk_size_rounds_up() {
    assert_eq!(chunk_size(10, 4), 3);
    assert_eq!(chunk_size(10, 5), 2);
    assert_eq!(chunk_size(10, 3), 4);
    assert_eq!(chunk_size(1, 1), 1);
    assert_eq!(chunk_size(0, 1), 0);
    assert_eq!(chunk_size(7, 7), 1);
    assert_eq!(chunk_size(usize::MAX, 1), usize::MAX);
    assert_eq!(chunk_size(usize::MAX, 2), usize::MAX / 2 + 1);
}

#[test]
fn chunks_are_contiguous() {
    assert_eq!(plan_chunks(10, 4), vec![(0, 3), (3, 6), (6, 9), (9, 10)]);
    assert_eq!(plan_chunks(10, 3), vec![(0, 4), (4, 8), (8, 10)]);
    assert_eq!(plan_chunks(9, 4), vec![(0, 3), (3, 6), (6, 9)]);
    assert_eq!(plan_chunks(3, 16), vec![(0, 1), (1, 2), (2, 3)]);
    assert_eq!(plan_chunks(5, 0), vec![(0, 5)]);
    assert_eq!(plan_chunks(5, 1), vec![(0, 5)]);
    assert_eq!(plan_chunks(0, 4), Vec::<(usize, usize)>::new());
}

#[test]
fn files_are_distributed_in_order() {
    let files = words(&["a", "b", "c", "d", "e"]);
    assert_eq!(
        distribute(&files, 2),
        vec![words(&["a", "b", "c"]), words(&["d", "e"])]
    );
    assert_eq!(
        distribute(&files, 4),
        vec![words(&["a", "b"]), words(&["c", "d"]), words(&["e"])]
    );
    assert_eq!(distribute(&files, 1), vec![files.clone()]);
    assert_eq!(distribute(&Vec::new(), 3), Vec::<Vec<String>>::new());
    for n in 0..8 {
        let joined: Vec<String> = distribute(&files, n).into_iter().flatten().collect();
        assert_eq!(joined, files);
    }
}

#[test]
fn one_worker_and_four_give_the_same_set() {
    let config = ScanConfig {
        keywords: Vec::new(),
        mode: ExtractionMode::FixedThreeField,
        strip_dots: false,
        pass_only: false,
        filter: Vec::new(),
        thresholds: ClassificationConfig::default(),
    };
    let contents: Vec<Vec<String>> = vec![
        words(&["s:alice:secret", "s:bobby:secret", "junk"]),
        words(&["s:bobby:secret", "s:carol:hunter2"]),
        words(&[]),
        words(&["s:dave:12345", "s:alice:secret"]),
        words(&["s:erin:qwerty", "s:x:y"]),
        words(&["s:carol:hunter2"]),
    ];
    let names: Vec<String> = (0..contents.len()).map(|i| format!("{}", i)).collect();
    let mut sets: Vec<Vec<String>> = Vec::new();
    for workers in [1usize, 4usize] {
        let chunks = distribute(&names, workers);
        let mut outputs: Vec<Vec<String>> = Vec::new();
        for chunk in &chunks {
            let read: Vec<Vec<String>> = chunk
                .iter()
                .map(|name| contents[name.parse::<usize>().unwrap()].clone())
                .collect();
            outputs.push(scan_files(&read, &config));
        }
        // the last worker's records reach the consumer first
        let stream: Vec<String> = outputs.into_iter().rev().flatten().collect();
        sets.push(sorted(dedup(&stream)));
    }
    assert_eq!(sets[0], sets[1]);
    assert_eq!(
        sets[0],
        words(&["alice:secret", "bobby:secret", "carol:hunter2", "dave:12345", "erin:qwerty"])
    );
}

#[test]
fn eligible_extensions() {
    assert!(is_eligible("a.txt"));
    assert!(is_eligible("a.csv"));
    assert!(is_eligible("a.log"));
    assert!(is_eligible("archive.tar.log"));
    assert!(!is_eligible("a.TXT"));
    assert!(!is_eligible("a.json"));
    assert!(!is_eligible("a.txt.bak"));
    assert!(!is_eligible("txt"));
    assert!(!is_eligible(".txt"));
    assert!(!is_eligible("a."));
    assert!(!is_eligible(""));
    assert!(!is_eligible("a.txtx"));
    assert!(!is_eligible("a.tx"));
    assert!(is_eligible("..txt"));
}

#[test]
fn eligible_files_keep_their_order() {
    let names = words(&["b.log", "notes.md", "a.txt", ".csv", "c.csv", "d"]);
    assert_eq!(select_files(&names), words(&["b.log", "a.txt", "c.csv"]));
    assert_eq!(select_files(&Vec::new()), Vec::<String>::new());
}

#[test]
fn output_is_one_record_per_line() {
    assert_eq!(render_output(&words(&["a:1", "b:2"])), "a:1\nb:2\n");
    assert_eq!(render_output(&words(&["a:1"])), "a:1\n");
    assert_eq!(render_output(&Vec::new()), "");
    assert_eq!(render_output(&words(&["", "x y"])), "\nx y\n");
}

#[test]
fn dedup_pass_over_an_appended_file() {
    // what the file held, and what one more run wrote after it
    let held = words(&["a:1", "b:2"]);
    let added = words(&["b:2", "c:3", "a:1", "c:3"]);
    let mut all = held.clone();
    all.extend(added);
    assert_eq!(render_output(&dedup(&all)), "a:1\nb:2\nc:3\n");
}

#[test]
fn output_file_is_appended_to_or_emptied() {
    assert_eq!(open_mode(true), OpenMode::Append);
    assert_eq!(open_mode(false), OpenMode::Truncate);
}

#[test]
fn streaming_run_writes_each_record_as_it_comes() {
    assert_eq!(arrival_text(Persistence::Streaming, "a:1"), Some("a:1\n".to_string()));
    assert_eq!(arrival_text(Persistence::Streaming, ""), Some("\n".to_string()));
    assert_eq!(arrival_text(Persistence::Buffered, "a:1"), None);
}

#[test]
fn streaming_run_ends_by_replacing_the_file() {
    // an appended file: two lines from before, then the records as they came
    let lines = words(&["a:1", "b:2", "b:2", "c:3", "a:1"]);
    let end = closing(Persistence::Streaming, &lines);
    assert!(end.replace);
    assert_eq!(end.text, "a:1\nb:2\nc:3\n");
}

#[test]
fn buffered_run_ends_by_adding_its_unique_records() {
    let stream = words(&["b:2", "c:3", "b:2"]);
    let end = closing(Persistence::Buffered, &stream);
    assert!(!end.replace);
    assert_eq!(end.text, "b:2\nc:3\n");
    let end = closing(Persistence::Buffered, &Vec::new());
    assert_eq!(end.text, "");
}
