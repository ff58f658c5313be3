use importee::modpath::{count_leading_dots, ModulePath};

fn texts(parts: &[&str]) -> Vec<String> {
    parts.iter().map(|p| p.to_string()).collect()
}

#[test]
fn dotted_roundtrip_and_path() {
    let mp = ModulePath::from_dotted("foo.bar");
    assert_eq!(mp.segments(), &["foo", "bar"]);
    assert_eq!(mp.to_dotted(), "foo.bar");
}

#[test]
fn from_import_absolute() {
    let cur = ModulePath::from_dotted("foo.bar");
    let out = ModulePath::from_import(&cur, "foo.nothing");
    assert_eq!(out.to_dotted(), "foo.nothing");
}

#[test]
fn from_import_relative_single_dot() {
    let cur = ModulePath::from_dotted("foo.bar");
    let out = ModulePath::from_import(&cur, ".other");
    assert_eq!(out.to_dotted(), "foo.other");
}

#[test]
fn from_import_relative_multi_dot() {
    let cur = ModulePath::from_dotted("a.b.c");
    let out = ModulePath::from_import(&cur, "..d");
    assert_eq!(out.to_dotted(), "a.d");
}

#[test]
fn round_trip_of_canonical_segments() {
    let mp = ModulePath::new(texts(&["alpha", "beta_2", "g"]));
    assert_eq!(mp.to_dotted(), "alpha.beta_2.g");
    assert_eq!(ModulePath::from_dotted(&mp.to_dotted()), mp);
    let single = ModulePath::new(texts(&["solo"]));
    assert_eq!(ModulePath::from_dotted(&single.to_dotted()), single);
    let none = ModulePath::new(vec![]);
    assert_eq!(none.to_dotted(), "");
    assert_eq!(ModulePath::from_dotted(&none.to_dotted()), none);
}

#[test]
fn round_trip_fails_only_off_canonical_segments() {
    let dotted_segment = ModulePath::new(texts(&["a.b", "c"]));
    assert_eq!(
        ModulePath::from_dotted(&dotted_segment.to_dotted()),
        ModulePath::new(texts(&["a", "b", "c"]))
    );
    let empty_segment = ModulePath::new(texts(&["a", "", "c"]));
    assert_eq!(empty_segment.to_dotted(), "a..c");
    assert_eq!(
        ModulePath::from_dotted(&empty_segment.to_dotted()),
        ModulePath::new(texts(&["a", "c"]))
    );
}

#[test]
fn from_dotted_drops_empty_pieces() {
    assert!(ModulePath::from_dotted("").is_empty());
    assert!(ModulePath::from_dotted("...").is_empty());
    assert_eq!(ModulePath::from_dotted(".a..b.").segments(), &["a", "b"]);
    assert_eq!(ModulePath::from_dotted("a").segments(), &["a"]);
    assert_eq!(ModulePath::from_dotted("a.").segments(), &["a"]);
    assert_eq!(ModulePath::from_dotted("péché.naïve").segments(), &["péché", "naïve"]);
}

#[test]
fn new_keeps_segments_as_given() {
    let mp = ModulePath::new(texts(&["a.b", ""]));
    assert_eq!(mp.segments(), &["a.b", ""]);
    assert!(!mp.is_empty());
    assert!(ModulePath::new(vec![]).is_empty());
    assert!(ModulePath::default().is_empty());
}

#[test]
fn append_adds_a_last_segment_and_leaves_the_receiver() {
    let base = ModulePath::from_dotted("a.b");
    let longer = base.append("c".to_string());
    assert_eq!(longer.segments(), &["a", "b", "c"]);
    assert_eq!(base.segments(), &["a", "b"]);
    assert_eq!(ModulePath::new(vec![]).append("x".to_string()).segments(), &["x"]);
}

#[test]
fn split_last_is_none_only_for_the_empty_path() {
    assert_eq!(ModulePath::new(vec![]).split_last(), None);
    let (leaf, parent) = ModulePath::from_dotted("a.b.c").split_last().unwrap();
    assert_eq!(leaf, "c");
    assert_eq!(parent.segments(), &["a", "b"]);
    let (leaf, parent) = ModulePath::from_dotted("a").split_last().unwrap();
    assert_eq!(leaf, "a");
    assert!(parent.is_empty());
}

#[test]
fn starts_with_compares_whole_segments() {
    let mp = ModulePath::from_dotted("app.api.x");
    assert!(mp.starts_with(&ModulePath::from_dotted("app")));
    assert!(mp.starts_with(&ModulePath::from_dotted("app.api")));
    assert!(mp.starts_with(&mp.clone()));
    assert!(mp.starts_with(&ModulePath::new(vec![])));
    assert!(!mp.starts_with(&ModulePath::from_dotted("app.ap")));
    assert!(!mp.starts_with(&ModulePath::from_dotted("app.api.x.y")));
    assert!(!mp.starts_with(&ModulePath::from_dotted("api")));
}

#[test]
fn relative_from_strips_a_matching_prefix() {
    let mp = ModulePath::from_dotted("importee.path.api");
    let rest = mp.relative_from(&ModulePath::from_dotted("importee")).unwrap();
    assert_eq!(rest.to_dotted(), "path.api");
    assert_eq!(mp.relative_from(&mp.clone()).unwrap().segments().len(), 0);
    assert_eq!(mp.relative_from(&ModulePath::new(vec![])).unwrap(), mp);
    assert_eq!(mp.relative_from(&ModulePath::from_dotted("other")), None);
    assert_eq!(mp.relative_from(&ModulePath::from_dotted("importee.path.api.more")), None);
}

#[test]
fn directory_and_file_projection() {
    let mp = ModulePath::from_dotted("foo.bar.baz");
    assert_eq!(mp.to_dir_pathbuf(), "foo/bar/baz");
    assert_eq!(mp.file_path(), "foo/bar/baz.py");
    assert_eq!(ModulePath::from_dotted("top").to_dir_pathbuf(), "top");
    assert_eq!(ModulePath::from_dotted("top").file_path(), "top.py");
    assert_eq!(ModulePath::new(vec![]).to_dir_pathbuf(), "");
    assert_eq!(ModulePath::new(vec![]).file_path(), "");
}

#[test]
fn projection_of_an_absolute_first_segment() {
    let mp = ModulePath::new(texts(&["/srv/code", "pkg", "m"]));
    assert_eq!(mp.to_dir_pathbuf(), "/srv/code/pkg/m");
    assert_eq!(mp.file_path(), "/srv/code/pkg/m.py");
    let restart = ModulePath::new(texts(&["a", "/b", "c"]));
    assert_eq!(restart.to_dir_pathbuf(), "/b/c");
}

#[test]
fn from_import_saturates_at_the_top() {
    let cur = ModulePath::from_dotted("a.b");
    assert_eq!(ModulePath::from_import(&cur, "..x").to_dotted(), "x");
    assert_eq!(ModulePath::from_import(&cur, "...x").to_dotted(), "x");
    assert_eq!(ModulePath::from_import(&cur, "......x.y").to_dotted(), "x.y");
    assert_eq!(ModulePath::from_import(&ModulePath::new(vec![]), ".x").to_dotted(), "x");
}

#[test]
fn from_import_with_dots_only() {
    let cur = ModulePath::from_dotted("a.b.c");
    assert_eq!(ModulePath::from_import(&cur, ".").to_dotted(), "a.b");
    assert_eq!(ModulePath::from_import(&cur, "..").to_dotted(), "a");
    assert_eq!(ModulePath::from_import(&cur, "...").to_dotted(), "");
    assert_eq!(ModulePath::from_import(&cur, "").to_dotted(), "");
}

#[test]
fn from_import_drops_empty_pieces_of_the_remainder() {
    let cur = ModulePath::from_dotted("a.b.c");
    assert_eq!(ModulePath::from_import(&cur, ".x..y.").to_dotted(), "a.b.x.y");
    assert_eq!(ModulePath::from_import(&cur, "x..y").to_dotted(), "x.y");
}

#[test]
fn leading_dots_are_counted() {
    assert_eq!(count_leading_dots(""), 0);
    assert_eq!(count_leading_dots("a.b"), 0);
    assert_eq!(count_leading_dots(".a"), 1);
    assert_eq!(count_leading_dots("...a.b"), 3);
    assert_eq!(count_leading_dots("...."), 4);
}
