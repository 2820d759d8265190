use cineteca::archive::{Archive, Startup};
use cineteca::clock::Timestamp;
use cineteca::collector::Movie;
use cineteca::tui::app::App;
use cineteca::tui::filter_view::Filter;
use cineteca::tui::info_view::{format_movie_info, watched_status};
use cineteca::movies_archive::Movie as FlagMovie;
use cineteca::tui::list_view::{
    in_display_order, label, listing, marked_rows, rows, select, Listed,
};
use cineteca::tui::stats_view::{recently_watched, survey, text, Stats};
use cineteca::tui::user_data::UserData;

const DAY: u64 = 86_400;

fn movie(name: &str) -> Movie {
    Movie { name: name.to_string(), path: format!("/m/{}", name), date_watched: None, duration: 4000 }
}

fn seen(name: &str, secs: u64) -> Movie {
    Movie {
        name: name.to_string(),
        path: format!("/m/{}", name),
        date_watched: Some(Timestamp { secs, nanos: 0 }),
        duration: 4000,
    }
}

fn at(secs: u64) -> Timestamp {
    Timestamp { secs, nanos: 0 }
}

fn names(movies: &[Movie]) -> Vec<&str> {
    movies.iter().map(|m| m.name.as_str()).collect()
}

#[test]
fn filter_cycles_through_three() {
    let mut f = Filter::Empty;
    f.cycle();
    assert_eq!(f, Filter::NotWatched);
    f.cycle();
    assert_eq!(f, Filter::Watched);
    f.cycle();
    assert_eq!(f, Filter::Empty);
}

#[test]
fn filter_has_a_label() {
    assert_eq!(Filter::Watched.label(), "Watched");
    assert_eq!(Filter::NotWatched.label(), "Not watched");
    assert_eq!(Filter::Empty.label(), "None");
}

#[test]
fn filter_tells_watched_from_unwatched() {
    assert!(Filter::Watched.accepts(&seen("a", 1)));
    assert!(!Filter::Watched.accepts(&movie("a")));
    assert!(!Filter::NotWatched.accepts(&seen("a", 1)));
    assert!(Filter::NotWatched.accepts(&movie("a")));
    assert!(Filter::Empty.accepts(&seen("a", 1)));
    assert!(Filter::Empty.accepts(&movie("a")));
}

#[test]
fn user_data_starts_without_a_filter() {
    let archive = Archive::init("/m", Startup::Saved(vec![movie("a")], 1)).unwrap();
    let mut data = UserData::new(archive);
    assert_eq!(*data.get_filter(), Filter::Empty);
    data.get_mut_filter().cycle();
    assert_eq!(*data.get_filter(), Filter::NotWatched);
    data.get_mut_archive().set_watched("a", at(5)).unwrap();
    assert!(data.get_mut_archive().movies()[0].watched());
    assert_eq!(*data.get_filter(), Filter::NotWatched);
}

#[test]
fn app_keeps_its_directory() {
    let app = App::new("/home/me/films".to_string());
    assert_eq!(app.path(), "/home/me/films");
}

#[test]
fn unwatched_come_first_by_lower_case_name() {
    let shown = in_display_order(vec![movie("b"), seen("x", 10), movie("C"), movie("a"), seen("y", 20)]);
    assert_eq!(names(&shown), vec!["a", "b", "C", "y", "x"]);
}

#[test]
fn watched_last_comes_first_among_the_watched() {
    let shown = in_display_order(vec![seen("a", 10), seen("b", 30), seen("c", 20)]);
    assert_eq!(names(&shown), vec!["b", "c", "a"]);
    let close = in_display_order(vec![
        Movie { date_watched: Some(Timestamp { secs: 5, nanos: 1 }), ..movie("early") },
        Movie { date_watched: Some(Timestamp { secs: 5, nanos: 2 }), ..movie("late") },
    ]);
    assert_eq!(names(&close), vec!["late", "early"]);
}

#[test]
fn ties_are_shown_by_name() {
    let shown = in_display_order(vec![movie("ab"), movie("AB"), movie("Ab"), seen("q", 7), seen("p", 7)]);
    assert_eq!(names(&shown), vec!["AB", "Ab", "ab", "p", "q"]);
}

#[test]
fn shows_before_is_the_order_of_the_listing() {
    assert!(movie("a").shows_before(&movie("B")));
    assert!(!movie("B").shows_before(&movie("a")));
    assert!(movie("z").shows_before(&seen("a", 1)));
    assert!(!seen("a", 1).shows_before(&movie("z")));
    assert!(seen("z", 9).shows_before(&seen("a", 1)));
    assert!(!movie("a").shows_before(&movie("a")));
}

#[test]
fn listing_filters_and_orders() {
    let movies = vec![movie("B"), seen("a", 10), movie("c"), seen("d", 50)];
    assert_eq!(names(&listing(&movies, &Filter::Empty)), vec!["B", "c", "d", "a"]);
    assert_eq!(names(&listing(&movies, &Filter::Watched)), vec!["d", "a"]);
    assert_eq!(names(&listing(&movies, &Filter::NotWatched)), vec!["B", "c"]);
    assert_eq!(names(&select(&movies, &Filter::Watched)), vec!["a", "d"]);
    assert!(listing(&[], &Filter::Empty).is_empty());
}

#[test]
fn rows_carry_the_name_twice() {
    let made = rows(&[movie("a"), seen("b", 1)]);
    assert_eq!(made, vec![("a".to_string(), "a".to_string()), ("b".to_string(), "b".to_string())]);
    assert_eq!(label("a", false), "a");
    assert_eq!(label("b", true), "[WATCHED] b");
}

fn flagged(name: &str, watched: bool) -> FlagMovie {
    FlagMovie { name: name.to_string(), path: format!("/m/{}", name), watched }
}

#[test]
fn flagged_movies_are_listed_unwatched_first() {
    let shown = in_display_order(vec![
        flagged("b", true),
        flagged("C", false),
        flagged("a", true),
        flagged("d", false),
        flagged("A", false),
        flagged("a", false),
    ]);
    let got: Vec<(&str, bool)> = shown.iter().map(|m| (m.name.as_str(), m.watched)).collect();
    assert_eq!(
        got,
        vec![("A", false), ("a", false), ("C", false), ("d", false), ("a", true), ("b", true)]
    );
    assert_eq!(
        marked_rows(&shown[3..5]),
        vec![("d".to_string(), "d".to_string()), ("[WATCHED] a".to_string(), "a".to_string())]
    );
}

#[test]
fn survey_counts() {
    let now = at(100 * DAY);
    let movies = vec![
        movie("a"),
        seen("b", 100 * DAY),
        seen("c", 86 * DAY),
        seen("d", 86 * DAY - DAY + 1),
        seen("e", 85 * DAY),
        seen("f", 100 * DAY + 1),
        movie("g"),
    ];
    let stats = survey(&movies, &now);
    assert_eq!(stats, Stats { total: 7, watched: 5, recent: 3, remaining: 2 });
    assert_eq!(survey(&[], &now), Stats { total: 0, watched: 0, recent: 0, remaining: 0 });
}

#[test]
fn recent_means_fourteen_whole_days() {
    let now = Timestamp { secs: 100 * DAY, nanos: 500 };
    assert!(recently_watched(&seen("a", 86 * DAY), &now));
    assert!(recently_watched(&seen("a", 85 * DAY + 1), &now));
    let edge = Movie { date_watched: Some(Timestamp { secs: 85 * DAY, nanos: 501 }), ..movie("a") };
    assert!(recently_watched(&edge, &now));
    let over = Movie { date_watched: Some(Timestamp { secs: 85 * DAY, nanos: 500 }), ..movie("a") };
    assert!(!recently_watched(&over, &now));
    assert!(!recently_watched(&seen("a", 101 * DAY), &now));
    assert!(!recently_watched(&movie("a"), &now));
}

#[test]
fn statistics_text() {
    let stats = Stats { total: 120, watched: 45, recent: 3, remaining: 75 };
    assert_eq!(text(&stats), "MOVIES TOTAL: 120\nWATCHED:\n├ last 14d: 3\n└ total: 45\nREMAINING: 75");
    let none = Stats { total: 0, watched: 0, recent: 0, remaining: 0 };
    assert_eq!(text(&none), "MOVIES TOTAL: 0\nWATCHED:\n├ last 14d: 0\n└ total: 0\nREMAINING: 0");
}

#[test]
fn watched_status_in_words() {
    let now = at(50 * DAY);
    assert_eq!(watched_status(None, &now), "Not yet");
    assert_eq!(watched_status(Some(at(50 * DAY)), &now), "Today");
    assert_eq!(watched_status(Some(at(49 * DAY + 1)), &now), "Today");
    assert_eq!(watched_status(Some(at(49 * DAY)), &now), "A day ago");
    assert_eq!(watched_status(Some(at(48 * DAY + 1)), &now), "A day ago");
    assert_eq!(watched_status(Some(at(48 * DAY)), &now), "2 days ago");
    assert_eq!(watched_status(Some(at(0)), &now), "50 days ago");
    assert_eq!(watched_status(Some(at(51 * DAY)), &now), "Today");
}

#[test]
fn movie_info_text() {
    let now = at(50 * DAY);
    let mut m = movie("a");
    m.duration = 7259;
    assert_eq!(format_movie_info(&m, &now), "WATCHED: Not yet\n\nLENGTH: 120 minutes");
    m.date_watched = Some(at(40 * DAY));
    m.duration = 3600;
    assert_eq!(format_movie_info(&m, &now), "WATCHED: 10 days ago\n\nLENGTH: 60 minutes");
    m.duration = 59;
    assert_eq!(format_movie_info(&m, &now), "WATCHED: 10 days ago\n\nLENGTH: 0 minutes");
}

#[test]
fn days_between_points_in_time() {
    let a = Timestamp { secs: 10, nanos: 999_999_999 };
    let b = Timestamp { secs: 10 + DAY, nanos: 999_999_998 };
    let c = Timestamp { secs: 10 + DAY, nanos: 999_999_999 };
    assert_eq!(b.days_after(&a), Some(0));
    assert_eq!(c.days_after(&a), Some(1));
    assert_eq!(a.days_after(&c), None);
    assert_eq!(a.days_after(&a), Some(0));
    assert!(c.after(&b));
    assert!(!b.after(&c));
    assert!(!a.after(&a));
    let far = Timestamp { secs: u64::MAX, nanos: u32::MAX };
    assert_eq!(far.days_after(&Timestamp { secs: 0, nanos: 0 }), Some(213_503_982_334_601));
}
