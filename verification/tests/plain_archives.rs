use cineteca::archive::{Error, Startup};
use cineteca::collector::{Entry, Probed, TIME_BASE};
use cineteca::movies::MoviesLib;
use cineteca::movies_archive::{Episode, Movie, MoviesArchive, Season, Show};
use cineteca::movies_collector::{MovieCollector, ProcessedMedia, MIN_FILE_SIZE};
use cineteca::names::{compare, Rank};
use cineteca::signature::signature;

fn movie(name: &str, path: &str) -> Movie {
    Movie { name: name.to_string(), path: path.to_string(), watched: false }
}

fn seen(name: &str, path: &str) -> Movie {
    Movie { name: name.to_string(), path: path.to_string(), watched: true }
}

fn names(list: &[&str]) -> Vec<String> {
    list.iter().map(|n| n.to_string()).collect()
}

fn entry(path: &str, file_name: &str, len: u64) -> Entry {
    Entry { path: path.to_string(), file_name: file_name.to_string(), is_file: true, len }
}

fn probed(path: &str, file_name: &str, len: u64, seconds: i64) -> Probed {
    Probed { entry: entry(path, file_name, len), duration: Some(seconds * TIME_BASE) }
}

fn strictly_sorted(movies: &[Movie]) -> bool {
    movies.windows(2).all(|w| compare(&w[0].name, &w[1].name) == Rank::Before)
}

#[test]
fn movies_archive_is_saved_beside_the_movies() {
    let a = MoviesArchive::init("/films", Startup::Scanned(vec![], 3)).unwrap();
    assert_eq!(a.movies_path(), "/films");
    assert_eq!(a.save_path(), "/films/.media.json");
    assert_eq!(a.hash(), 3);
}

#[test]
fn movies_archive_refuses_saved_movies_out_of_order() {
    let r = MoviesArchive::init("/films", Startup::Saved(vec![movie("b", "/b"), movie("a", "/a")], 3));
    assert_eq!(r.err(), Some(Error::OutOfOrder));
    let ok = MoviesArchive::init("/films", Startup::Saved(vec![movie("a", "/a"), seen("b", "/b")], 3)).unwrap();
    assert_eq!(ok.movies(), &vec![movie("a", "/a"), seen("b", "/b")]);
}

#[test]
fn movies_archive_refresh_merges_on_a_new_signature_only() {
    let mut a = MoviesArchive::init("/f", Startup::Saved(vec![seen("a", "/f/a"), movie("b", "/f/b")], 1)).unwrap();
    a.refresh(&[movie("c", "/f/c")], 1);
    assert_eq!(a.movies(), &vec![seen("a", "/f/a"), movie("b", "/f/b")]);
    a.refresh(&[movie("c", "/f/c"), movie("a", "/g/a")], 2);
    assert_eq!(a.movies(), &vec![seen("a", "/f/a"), movie("c", "/f/c")]);
    assert_eq!(a.hash(), 2);
    a.refresh(&[movie("c", "/f/c"), movie("a", "/g/a")], 2);
    assert_eq!(a.movies(), &vec![seen("a", "/f/a"), movie("c", "/f/c")]);
    assert!(strictly_sorted(a.movies()));
}

#[test]
fn movies_archive_marks_by_name() {
    let mut a = MoviesArchive::init("/f", Startup::Saved(vec![movie("a", "/f/a"), movie("b", "/f/b")], 1)).unwrap();
    assert_eq!(a.toggle_watched("a"), Ok(()));
    assert_eq!(a.movies(), &vec![seen("a", "/f/a"), movie("b", "/f/b")]);
    assert_eq!(a.toggle_watched("a"), Ok(()));
    assert_eq!(a.movies(), &vec![movie("a", "/f/a"), movie("b", "/f/b")]);
    assert_eq!(a.set_watched("b"), Ok(()));
    assert_eq!(a.set_watched("b"), Ok(()));
    assert_eq!(a.movies(), &vec![movie("a", "/f/a"), seen("b", "/f/b")]);
    assert_eq!(a.get_path("b"), Ok("/f/b".to_string()));
    assert_eq!(a.get_index("b"), Some(1));
    assert_eq!(a.toggle_watched("c"), Err(Error::NotFound));
    assert_eq!(a.set_watched("c"), Err(Error::NotFound));
    assert_eq!(a.get_path("c"), Err(Error::NotFound));
    assert_eq!(a.get_index("c"), None);
    assert_eq!(a.movies(), &vec![movie("a", "/f/a"), seen("b", "/f/b")]);
}

#[test]
fn movies_lib_is_saved_beside_the_movies() {
    let a = MoviesLib::init("/films", Startup::Scanned(vec![], 3)).unwrap();
    assert_eq!(a.movies_path(), "/films");
    assert_eq!(a.save_path(), "/films/.movies.json");
    assert_eq!(a.hash(), 3);
    assert!(a.movies().is_empty());
}

#[test]
fn movies_lib_init_sorts_a_scan_and_keeps_the_first_of_each_name() {
    let scan = vec![movie("c", "/c"), movie("a", "/1/a"), movie("b", "/b"), movie("a", "/2/a")];
    let a = MoviesLib::init("/films", Startup::Scanned(scan, 3)).unwrap();
    assert_eq!(a.movies(), &vec![movie("a", "/1/a"), movie("b", "/b"), movie("c", "/c")]);
    let r = MoviesLib::init("/films", Startup::Saved(vec![movie("b", "/b"), movie("a", "/a")], 3));
    assert_eq!(r.err(), Some(Error::OutOfOrder));
}

#[test]
fn hash_dir_does_not_depend_on_the_order_of_the_walk() {
    let one = MoviesLib::hash_dir(&names(&["b.mkv", "a.mkv", "notes.txt", "sub"]));
    let two = MoviesLib::hash_dir(&names(&["sub", "notes.txt", "a.mkv", "b.mkv"]));
    assert_eq!(one, two);
    let twice = MoviesLib::hash_dir(&names(&["sub", "notes.txt", "a.mkv", "b.mkv", "a.mkv"]));
    assert_eq!(one, twice);
    assert_eq!(one, signature(&names(&["a.mkv", "b.mkv", "notes.txt", "sub"])));
}

#[test]
fn hash_dir_tells_directories_apart() {
    let one = MoviesLib::hash_dir(&names(&["b.mkv", "a.mkv"]));
    assert_ne!(one, MoviesLib::hash_dir(&names(&["b.mkv"])));
    assert_ne!(one, MoviesLib::hash_dir(&names(&["b.mkv", "a.mkv", "c.mkv"])));
    assert_ne!(one, MoviesLib::hash_dir(&names(&["b.mkva.mkv"])));
    assert_ne!(one, MoviesLib::hash_dir(&names(&[])));
}

#[test]
fn movies_lib_refresh_leaves_an_unchanged_directory_alone() {
    let dir = names(&["a.mkv", "b.mkv"]);
    let hash = MoviesLib::hash_dir(&dir);
    let mut lib = MoviesLib::init("/f", Startup::Saved(vec![seen("a.mkv", "/f/a.mkv"), movie("b.mkv", "/f/b.mkv")], hash)).unwrap();
    assert!(!lib.is_stale(&dir));
    lib.refresh(&dir, vec![movie("z.mkv", "/f/z.mkv")]);
    assert_eq!(lib.movies(), &vec![seen("a.mkv", "/f/a.mkv"), movie("b.mkv", "/f/b.mkv")]);
    assert_eq!(lib.hash(), hash);
}

#[test]
fn movies_lib_refresh_merges_a_changed_directory() {
    let mut lib = MoviesLib::init(
        "/f",
        Startup::Saved(vec![seen("b.mkv", "/f/b.mkv"), movie("d.mkv", "/f/d.mkv"), seen("e.mkv", "/f/e.mkv")], 0),
    )
    .unwrap();
    let dir = names(&["e.mkv", "c.mkv", "b.mkv", "a.mkv"]);
    assert!(lib.is_stale(&dir));
    let found = vec![
        movie("e.mkv", "/g/e.mkv"),
        movie("c.mkv", "/f/c.mkv"),
        movie("b.mkv", "/g/b.mkv"),
        movie("a.mkv", "/f/a.mkv"),
        movie("c.mkv", "/f/sub/c.mkv"),
    ];
    lib.refresh(&dir, found);
    assert_eq!(
        lib.movies(),
        &vec![
            movie("a.mkv", "/f/a.mkv"),
            seen("b.mkv", "/f/b.mkv"),
            movie("c.mkv", "/f/c.mkv"),
            seen("e.mkv", "/f/e.mkv"),
        ]
    );
    assert_eq!(lib.hash(), MoviesLib::hash_dir(&dir));
    assert_eq!(lib.save_path(), "/f/.movies.json");
    assert_eq!(lib.movies_path(), "/f");
    assert!(!lib.is_stale(&dir));
    assert!(strictly_sorted(lib.movies()));
}

#[test]
fn movies_lib_refresh_sorts_many() {
    let mut lib = MoviesLib::init("/f", Startup::Saved(vec![], 0)).unwrap();
    let mut found = Vec::new();
    let mut dir = Vec::new();
    for i in 0..500u32 {
        let k = (i * 7919) % 500;
        let name = format!("m{:03}.mkv", k);
        found.push(movie(&name, &format!("/f/{}", name)));
        dir.push(name);
    }
    lib.refresh(&dir, found);
    assert_eq!(lib.movies().len(), 500);
    assert!(strictly_sorted(lib.movies()));
    assert_eq!(lib.movies()[0].name, "m000.mkv");
    assert_eq!(lib.movies()[499].name, "m499.mkv");
    assert_eq!(lib.get_index("m250.mkv"), Some(250));
}

#[test]
fn movies_lib_marks_by_name() {
    let mut lib = MoviesLib::init("/f", Startup::Saved(vec![movie("a", "/f/a"), movie("b", "/f/b")], 1)).unwrap();
    assert_eq!(lib.toggle_watched("b"), Ok(()));
    assert_eq!(lib.movies(), &vec![movie("a", "/f/a"), seen("b", "/f/b")]);
    assert_eq!(lib.toggle_watched("b"), Ok(()));
    assert_eq!(lib.set_watched("a"), Ok(()));
    assert_eq!(lib.movies(), &vec![seen("a", "/f/a"), movie("b", "/f/b")]);
    assert_eq!(lib.get_path("a"), Ok("/f/a".to_string()));
    assert_eq!(lib.toggle_watched("x"), Err(Error::NotFound));
    assert_eq!(lib.set_watched("x"), Err(Error::NotFound));
    assert_eq!(lib.get_path("x"), Err(Error::NotFound));
    assert_eq!(lib.get_index("x"), None);
}

#[test]
fn movies_lib_qualifies_by_extension_and_length() {
    let e = entry("/f/a.mkv", "a.mkv", 5);
    assert!(MoviesLib::is_movie(&e, Some(3600 * TIME_BASE)));
    assert!(!MoviesLib::is_movie(&e, Some(3600 * TIME_BASE - 1)));
    assert!(!MoviesLib::is_movie(&e, None));
    assert!(!MoviesLib::is_movie(&entry("/f/a.txt", "a.txt", 5), Some(9000 * TIME_BASE)));
    assert_eq!(MoviesLib::process_movie_entry(&e, Some(4000 * TIME_BASE)), Some(movie("a.mkv", "/f/a.mkv")));
    assert_eq!(MoviesLib::process_movie_entry(&e, Some(40 * TIME_BASE)), None);
}

#[test]
fn small_files_are_not_probed() {
    assert_eq!(MIN_FILE_SIZE, 300_000_000);
    assert!(MovieCollector::is_candidate(&entry("/f/a.mkv", "a.mkv", 300_000_000)));
    assert!(!MovieCollector::is_candidate(&entry("/f/a.mkv", "a.mkv", 299_999_999)));
    assert!(!MovieCollector::is_candidate(&entry("/f/a.doc", "a.doc", 900_000_000)));
    let mut dir = entry("/f/a.mkv", "a.mkv", 900_000_000);
    dir.is_file = false;
    assert!(!MovieCollector::is_candidate(&dir));
    assert!(!MovieCollector::is_movie(&entry("/f/a.mkv", "a.mkv", 1), Some(9000 * TIME_BASE)));
    assert!(MovieCollector::is_movie(&entry("/f/a.mkv", "a.mkv", 300_000_000), Some(3600 * TIME_BASE)));
    assert!(!MovieCollector::is_movie(&entry("/f/a.mkv", "a.mkv", 300_000_000), Some(3599 * TIME_BASE)));
    assert!(!MovieCollector::is_movie(&entry("/f/a.mkv", "a.mkv", 300_000_000), None));
    assert_eq!(
        MovieCollector::process_file(&entry("/f/a.mkv", "a.mkv", 400_000_000), Some(3700 * TIME_BASE)),
        Some(movie("a.mkv", "/f/a.mkv"))
    );
    assert_eq!(MovieCollector::process_file(&entry("/f/a.mkv", "a.mkv", 4), Some(3700 * TIME_BASE)), None);
}

#[test]
fn chunk_size_rounds_up() {
    assert_eq!(MovieCollector::chunk_size(0, 8), 0);
    assert_eq!(MovieCollector::chunk_size(1, 8), 1);
    assert_eq!(MovieCollector::chunk_size(8, 8), 1);
    assert_eq!(MovieCollector::chunk_size(9, 8), 2);
    assert_eq!(MovieCollector::chunk_size(17, 4), 5);
    assert_eq!(MovieCollector::chunk_size(usize::MAX, 1), usize::MAX);
    assert_eq!(MovieCollector::chunk_size(usize::MAX, 2), usize::MAX / 2 + 1);
}

#[test]
fn a_new_batch_is_empty() {
    let batch = ProcessedMedia::new();
    assert!(batch.movies().is_empty());
    assert!(batch.shows().is_empty());
}

#[test]
fn process_dir_adds_the_movies_of_a_listing() {
    let big = 500_000_000;
    let mut batch = ProcessedMedia::new();
    MovieCollector::process_dir(&mut batch, &[probed("/f/z.mkv", "z.mkv", big, 4000), probed("/f/s.mkv", "s.mkv", 10, 4000)]);
    MovieCollector::process_dir(&mut batch, &[]);
    MovieCollector::process_dir(&mut batch, &[probed("/f/d/a.mkv", "a.mkv", big, 4000), probed("/f/d/b.mkv", "b.mkv", big, 40)]);
    assert_eq!(batch.movies(), &vec![movie("z.mkv", "/f/z.mkv"), movie("a.mkv", "/f/d/a.mkv")]);
    assert!(batch.shows().is_empty());
}

#[test]
fn collect_movies_gathers_and_sorts_the_batches() {
    let big = 500_000_000;
    let mut one = ProcessedMedia::new();
    MovieCollector::process_dir(&mut one, &[probed("/f/z.mkv", "z.mkv", big, 4000), probed("/f/1/m.mkv", "m.mkv", big, 4000)]);
    let two = ProcessedMedia::new();
    let mut three = ProcessedMedia::new();
    MovieCollector::process_dir(&mut three, &[probed("/f/2/m.mkv", "m.mkv", big, 4000), probed("/f/a.mkv", "a.mkv", big, 4000)]);
    let (movies, hash) = MovieCollector::collect_movies(&[one, two, three]);
    assert_eq!(
        movies,
        vec![movie("a.mkv", "/f/a.mkv"), movie("m.mkv", "/f/1/m.mkv"), movie("m.mkv", "/f/2/m.mkv"), movie("z.mkv", "/f/z.mkv")]
    );
    assert_eq!(hash, signature(&movies));
    let (none, empty_hash) = MovieCollector::collect_movies(&[]);
    assert!(none.is_empty());
    assert_ne!(hash, empty_hash);
}

#[test]
fn shows_hold_seasons_and_episodes() {
    let episode = Episode { name: "e1".to_string(), path: "/s/1/e1.mkv".to_string(), watched: false };
    let season = Season { name: "1".to_string(), episodes: vec![episode] };
    let show = Show { name: "s".to_string(), seasons: vec![season] };
    assert_eq!(show.seasons[0].episodes[0].name, "e1");
    assert!(!show.seasons[0].episodes[0].watched);
}
