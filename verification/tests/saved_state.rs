use cineteca::archive::{Archive, Startup};
use cineteca::clock::Timestamp;
use cineteca::collector::Movie;
use serde_json::{Number, Value};

fn encode(archive: &Archive) -> String {
    let movies: Vec<Value> = archive
        .movies()
        .iter()
        .map(|m| {
            let mut o = serde_json::Map::new();
            o.insert("name".to_string(), Value::String(m.name.clone()));
            o.insert("path".to_string(), Value::String(m.path.clone()));
            let mark = match m.date_watched {
                None => Value::Null,
                Some(at) => {
                    let mut t = serde_json::Map::new();
                    t.insert("secs_since_epoch".to_string(), Value::Number(Number::from(at.secs)));
                    t.insert("nanos_since_epoch".to_string(), Value::Number(Number::from(at.nanos)));
                    Value::Object(t)
                }
            };
            o.insert("date_watched".to_string(), mark);
            o.insert("duration".to_string(), Value::Number(Number::from(m.duration)));
            Value::Object(o)
        })
        .collect();
    let mut root = serde_json::Map::new();
    root.insert("movies".to_string(), Value::Array(movies));
    root.insert("hash".to_string(), Value::Number(Number::from(archive.hash())));
    serde_json::to_string_pretty(&Value::Object(root)).unwrap()
}

fn decode(text: &str) -> (Vec<Movie>, u64) {
    let root: Value = serde_json::from_str(text).unwrap();
    let movies = root["movies"]
        .as_array()
        .unwrap()
        .iter()
        .map(|m| Movie {
            name: m["name"].as_str().unwrap().to_string(),
            path: m["path"].as_str().unwrap().to_string(),
            date_watched: if m["date_watched"].is_null() {
                None
            } else {
                Some(Timestamp {
                    secs: m["date_watched"]["secs_since_epoch"].as_u64().unwrap(),
                    nanos: m["date_watched"]["nanos_since_epoch"].as_u64().unwrap() as u32,
                })
            },
            duration: m["duration"].as_u64().unwrap(),
        })
        .collect();
    (movies, root["hash"].as_u64().unwrap())
}

fn movie(name: &str, duration: u64) -> Movie {
    Movie { name: name.to_string(), path: format!("/m/{}", name), date_watched: None, duration }
}

#[test]
fn saved_document_gives_the_same_archive() {
    let scan = vec![movie("b \"two\".mkv", 4000), movie("a.mkv", 5000), movie("ü.mp4", u64::MAX)];
    let mut a = Archive::init("/m", Startup::Scanned(scan, u64::MAX - 1)).unwrap();
    a.set_watched("a.mkv", Timestamp { secs: 1_700_000_000, nanos: 999_999_999 }).unwrap();
    let text = encode(&a);
    let (movies, hash) = decode(&text);
    let b = Archive::init("/m", Startup::Saved(movies, hash)).unwrap();
    assert_eq!(b.movies(), a.movies());
    assert_eq!(b.hash(), a.hash());
    assert_eq!(b.path(), a.path());
    assert_eq!(b.save_path(), a.save_path());
    assert_eq!(encode(&b), text);
}

#[test]
fn saved_document_of_an_empty_archive() {
    let a = Archive::init("/m", Startup::Scanned(vec![], 0)).unwrap();
    let (movies, hash) = decode(&encode(&a));
    let b = Archive::init("/elsewhere", Startup::Saved(movies, hash)).unwrap();
    assert!(b.movies().is_empty());
    assert_eq!(b.hash(), 0);
    assert_eq!(b.save_path(), "/elsewhere/.movies.json");
}
