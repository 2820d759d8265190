use cineteca::catalogue::sort_by_name;
use cineteca::collector::{Collector, Entry, Movie, Probed, MIN_DURATION, TIME_BASE};
use cineteca::signature::signature;

fn entry(path: &str, file_name: &str) -> Entry {
    Entry { path: path.to_string(), file_name: file_name.to_string(), is_file: true, len: 1 }
}

fn probed(path: &str, file_name: &str, seconds: i64) -> Probed {
    Probed { entry: entry(path, file_name), duration: Some(seconds * TIME_BASE) }
}

fn movie(name: &str, path: &str, duration: u64) -> Movie {
    Movie { name: name.to_string(), path: path.to_string(), date_watched: None, duration }
}

#[test]
fn allow_list_has_four_extensions() {
    assert!(Collector::is_allowed("a.mkv"));
    assert!(Collector::is_allowed("a.mp4"));
    assert!(Collector::is_allowed("a.avi"));
    assert!(Collector::is_allowed("a.mov"));
    assert!(!Collector::is_allowed("a.txt"));
    assert!(!Collector::is_allowed("a.mkv.txt"));
    assert!(!Collector::is_allowed("a.webm"));
}

#[test]
fn extension_needs_a_stem_and_a_dot() {
    assert!(!Collector::is_allowed(".mkv"));
    assert!(!Collector::is_allowed("mkv"));
    assert!(!Collector::is_allowed("amkv"));
    assert!(!Collector::is_allowed(""));
    assert!(Collector::is_allowed("..mkv"));
    assert!(Collector::is_allowed("a.b.mkv"));
    assert!(Collector::is_allowed("映画.mkv"));
}

#[test]
fn extension_is_matched_by_case() {
    assert!(!Collector::is_allowed("a.MKV"));
    assert!(!Collector::is_allowed("a.Mp4"));
}

#[test]
fn only_regular_files_are_candidates() {
    let mut e = entry("/m/a.mkv", "a.mkv");
    assert!(Collector::is_candidate(&e));
    e.is_file = false;
    assert!(!Collector::is_candidate(&e));
    assert!(!Collector::is_movie(&e, Some(2 * 3600 * TIME_BASE)));
}

#[test]
fn a_movie_plays_an_hour_or_more() {
    let e = entry("/m/a.mkv", "a.mkv");
    assert_eq!(MIN_DURATION, 3600);
    assert!(Collector::is_movie(&e, Some(3600 * TIME_BASE)));
    assert!(Collector::is_movie(&e, Some(3600 * TIME_BASE + 1)));
    assert!(!Collector::is_movie(&e, Some(3600 * TIME_BASE - 1)));
    assert!(!Collector::is_movie(&e, Some(0)));
    assert!(!Collector::is_movie(&e, Some(-1)));
    assert!(!Collector::is_movie(&e, Some(i64::MIN)));
    assert!(Collector::is_movie(&e, Some(i64::MAX)));
    assert!(!Collector::is_movie(&e, None));
}

#[test]
fn a_failed_probe_disqualifies() {
    let e = entry("/m/a.mkv", "a.mkv");
    assert_eq!(Collector::process_entry(&e, None), None);
}

#[test]
fn process_entry_makes_an_unwatched_movie() {
    let e = entry("/m/sub/a.mkv", "a.mkv");
    let made = Collector::process_entry(&e, Some(4200 * TIME_BASE + 999_999));
    assert_eq!(made, Some(movie("a.mkv", "/m/sub/a.mkv", 4200)));
    assert_eq!(Collector::process_entry(&entry("/m/a.txt", "a.txt"), Some(4200 * TIME_BASE)), None);
}

#[test]
fn chunk_len_is_quotient_plus_one() {
    assert_eq!(Collector::chunk_len(0, 4), 1);
    assert_eq!(Collector::chunk_len(3, 4), 1);
    assert_eq!(Collector::chunk_len(4, 4), 2);
    assert_eq!(Collector::chunk_len(10, 4), 3);
    assert_eq!(Collector::chunk_len(10, 1), 11);
    for entries in 0..50usize {
        for workers in 1..9usize {
            let len = Collector::chunk_len(entries, workers);
            assert!(len * workers > entries);
            let chunks = (entries + len - 1) / len;
            assert!(chunks <= workers);
        }
    }
}

#[test]
fn process_chunk_keeps_the_order_of_the_chunk() {
    let chunk = vec![
        probed("/m/z.mkv", "z.mkv", 4000),
        probed("/m/short.mkv", "short.mkv", 10),
        probed("/m/notes.txt", "notes.txt", 9000),
        probed("/m/a.mp4", "a.mp4", 3600),
    ];
    let found = Collector::process_chunk(&chunk);
    assert_eq!(found, vec![movie("z.mkv", "/m/z.mkv", 4000), movie("a.mp4", "/m/a.mp4", 3600)]);
}

#[test]
fn collect_keeps_only_long_files() {
    let scan = vec![probed("/m/B.mkv", "B.mkv", 600), probed("/m/A.mkv", "A.mkv", 4200)];
    let (movies, _) = Collector::collect(&scan);
    assert_eq!(movies, vec![movie("A.mkv", "/m/A.mkv", 4200)]);
}

#[test]
fn collect_returns_nothing_disqualified() {
    let mut scan = Vec::new();
    let names = ["a.mkv", "b.txt", "c.mp4", ".mkv", "d.avi", "e.mov", "f.MOV", "g"];
    for (i, name) in names.iter().enumerate() {
        for seconds in [0i64, 3599, 3600, 7200] {
            let path = format!("/m/{}/{}", i * 10000 + seconds as usize, name);
            scan.push(probed(&path, name, seconds));
        }
    }
    scan.push(Probed { entry: entry("/m/x/h.mkv", "h.mkv"), duration: None });
    let mut dir = entry("/m/y/i.mkv", "i.mkv");
    dir.is_file = false;
    scan.push(Probed { entry: dir, duration: Some(7200 * TIME_BASE) });
    let (movies, _) = Collector::collect(&scan);
    assert_eq!(movies.len(), 8);
    for m in movies.iter() {
        assert!(Collector::is_allowed(&m.name));
        assert!(m.duration >= 3600);
        assert!(m.date_watched.is_none());
        assert!(m.name != "h.mkv" && m.name != "i.mkv");
    }
}

#[test]
fn collect_sorts_by_name() {
    let scan = vec![
        probed("/m/c.mkv", "c.mkv", 4000),
        probed("/m/a.mkv", "a.mkv", 4000),
        probed("/m/B.mkv", "B.mkv", 4000),
        probed("/m/b.mkv", "b.mkv", 4000),
    ];
    let (movies, _) = Collector::collect(&scan);
    let names: Vec<&str> = movies.iter().map(|m| m.name.as_str()).collect();
    assert_eq!(names, vec!["B.mkv", "a.mkv", "b.mkv", "c.mkv"]);
}

#[test]
fn collect_keeps_equal_names_in_scan_order() {
    let scan = vec![
        probed("/m/two/a.mkv", "a.mkv", 5000),
        probed("/m/b.mkv", "b.mkv", 4000),
        probed("/m/one/a.mkv", "a.mkv", 6000),
    ];
    let (movies, _) = Collector::collect(&scan);
    assert_eq!(
        movies,
        vec![
            movie("a.mkv", "/m/two/a.mkv", 5000),
            movie("a.mkv", "/m/one/a.mkv", 6000),
            movie("b.mkv", "/m/b.mkv", 4000),
        ]
    );
}

#[test]
fn collect_of_nothing_is_empty() {
    let (movies, hash) = Collector::collect(&[]);
    assert!(movies.is_empty());
    let (_, again) = Collector::collect(&[probed("/m/a.txt", "a.txt", 9000)]);
    assert_eq!(hash, again);
}

#[test]
fn collect_is_deterministic() {
    let scan = vec![
        probed("/m/c.mkv", "c.mkv", 4000),
        probed("/m/a.mkv", "a.mkv", 4100),
        probed("/m/b.mkv", "b.mkv", 4200),
    ];
    let first = Collector::collect(&scan);
    let second = Collector::collect(&scan);
    assert_eq!(first, second);
}

#[test]
fn arrival_order_does_not_show() {
    let one = vec![movie("c.mkv", "/m/c.mkv", 4000), movie("a.mkv", "/m/a.mkv", 4100), movie("b.mkv", "/m/b.mkv", 4200)];
    let two = vec![movie("b.mkv", "/m/b.mkv", 4200), movie("c.mkv", "/m/c.mkv", 4000), movie("a.mkv", "/m/a.mkv", 4100)];
    assert_eq!(Collector::finish(one), Collector::finish(two));
}

#[test]
fn signature_tells_lists_apart() {
    let base = vec![movie("a.mkv", "/m/a.mkv", 4000), movie("b.mkv", "/m/b.mkv", 4000)];
    let h = signature(&base);
    assert_eq!(h, signature(&base.clone()));
    let renamed = vec![movie("a.mkv", "/m/a.mkv", 4000), movie("c.mkv", "/m/b.mkv", 4000)];
    let moved = vec![movie("a.mkv", "/n/a.mkv", 4000), movie("b.mkv", "/m/b.mkv", 4000)];
    let longer = vec![movie("a.mkv", "/m/a.mkv", 4001), movie("b.mkv", "/m/b.mkv", 4000)];
    let fewer = vec![movie("a.mkv", "/m/a.mkv", 4000)];
    let swapped = vec![movie("b.mkv", "/m/b.mkv", 4000), movie("a.mkv", "/m/a.mkv", 4000)];
    let shifted = vec![movie("a.mk", "v/m/a.mkv", 4000), movie("b.mkv", "/m/b.mkv", 4000)];
    for other in [renamed, moved, longer, fewer, swapped, shifted] {
        assert_ne!(h, signature(&other));
    }
    let empty: Vec<Movie> = Vec::new();
    assert_ne!(h, signature(&empty));
}

#[test]
fn collect_signs_the_sorted_list() {
    let scan = vec![probed("/m/b.mkv", "b.mkv", 4000), probed("/m/a.mkv", "a.mkv", 4000)];
    let (movies, hash) = Collector::collect(&scan);
    assert_eq!(hash, signature(&movies));
    let sorted = sort_by_name(vec![movie("b.mkv", "/m/b.mkv", 4000), movie("a.mkv", "/m/a.mkv", 4000)]);
    assert_eq!(hash, signature(&sorted));
}
