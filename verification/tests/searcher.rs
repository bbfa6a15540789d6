//! Searching a folder.
use rfn_edit::searcher::queue::newest;
use rfn_edit::searcher::{
    exclusion_patterns, hits_in, is_excluded, Heard, Hit, JobQueue, NeverSuperseded, Search, SearchJob,
    SearchStep, Superseded,
};

fn job(generation: u64) -> SearchJob {
    SearchJob {
        exclusions: String::new(),
        root: "/work".to_owned(),
        needle: "語".to_owned(),
        generation,
        files: 5_000,
        hits_per_file: 10,
        hits_in_all: 25,
        characters: 1_000_000,
    }
}

fn hits(count: usize) -> Vec<Hit> {
    (1..=count).map(|line| Hit { line }).collect()
}

struct Always;

impl Superseded for Always {
    fn superseded(&mut self) -> bool {
        true
    }
}

#[test]
fn the_bound_is_read_before_a_file() {
    let asked = job(1);
    let paths: Vec<String> = (0..6).map(|at| format!("{at}.md")).collect();
    let mut search = Search::start(paths);
    let mut read = 0;
    while search.next(&asked, &mut NeverSuperseded) == SearchStep::Read {
        assert_eq!(search.path(), &format!("{read}.md"));
        search.read(Some(hits(10)));
        read += 1;
    }
    let outcome = search.finish(&asked);
    assert_eq!(read, 3);
    assert_eq!(outcome.total, 30);
    assert_eq!(outcome.files.len(), 3);
    assert!(outcome.files.iter().all(|file| file.hits.len() == 10));
    assert_eq!(outcome.generation, 1);
    assert_eq!(outcome.needle, "語");
}

#[test]
fn a_search_that_is_overtaken_ends() {
    let search = Search::start(vec!["one.md".to_owned()]);
    assert_eq!(search.next(&job(1), &mut Always), SearchStep::Abandoned);
    assert_eq!(search.next(&job(1), &mut NeverSuperseded), SearchStep::Read);
    assert_eq!(search.next_by(&job(1), true), SearchStep::Abandoned);
    let nothing = Search::start(Vec::new());
    assert_eq!(nothing.next(&job(1), &mut Always), SearchStep::Done);
}

#[test]
fn a_file_without_the_needle_is_not_reported() {
    let asked = job(1);
    let mut search = Search::start(vec!["a".to_owned(), "b".to_owned(), "c".to_owned()]);
    search.read(None);
    search.read(Some(Vec::new()));
    search.read(Some(hits(2)));
    assert_eq!(search.next(&asked, &mut NeverSuperseded), SearchStep::Done);
    let outcome = search.finish(&asked);
    assert_eq!(outcome.files.len(), 1);
    assert_eq!(outcome.files[0].path, "c");
}

#[test]
fn names_are_left_out_by_their_pattern() {
    let patterns = exclusion_patterns("backup/;a.*; ;?x.md");
    assert_eq!(patterns.len(), 3);
    assert_eq!(patterns[0].pattern, "(?i)^backup$");
    assert_eq!(patterns[1].pattern, "(?i)^a\\..*$");
    assert_eq!(patterns[2].pattern, "(?i)^.x\\.md$");
    assert!(is_excluded(&patterns, "Backup", true));
    assert!(!is_excluded(&patterns, "backup", false));
    assert!(is_excluded(&patterns, "A.md", false));
    assert!(!is_excluded(&patterns, "z.md", false));
    assert!(is_excluded(&patterns, "日x.md", false));
    assert!(!is_excluded(&patterns, "日日x.md", false));
    assert!(!is_excluded(&exclusion_patterns(""), "z.md", false));
}

#[test]
fn the_newest_question_is_run() {
    assert_eq!(newest(job(1), Vec::new()).generation, 1);
    assert_eq!(newest(job(1), vec![job(2), job(3)]).generation, 3);
    let mut queue = JobQueue::new();
    assert!(queue.wants_look());
    assert!(!queue.look(Heard::Nothing));
    assert!(queue.look(Heard::Job(job(8))));
    assert!(!queue.wants_look());
    assert!(queue.look(Heard::Nothing));
    assert_eq!(queue.take_next().unwrap().generation, 8);
    assert!(queue.take_next().is_none());
    assert!(queue.look(Heard::Gone));
}

#[test]
fn the_lines_with_the_needle_are_found() {
    let text = "本文\n検索テスト用キーワード\n";
    assert_eq!(hits_in(text, "検索テスト用キーワード", 50), vec![Hit { line: 2 }]);
    assert_eq!(hits_in(&"語\n".repeat(40), "語", 10).len(), 10);
    assert!(hits_in(text, "無い", 50).is_empty());
}
