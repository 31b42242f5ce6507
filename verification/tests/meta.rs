use typlog_core::date::{parse_post_date, PostDate};
use typlog_core::meta::{
    post_meta_from_content, post_meta_from_fields, publishable_posts, sort_post_ids, sort_posts_desc,
    MetaError,
    PostMeta,
};

fn post(id: &str, date: Option<(i32, u32, u32)>) -> PostMeta {
    PostMeta {
        id: id.to_string(),
        title: id.to_uppercase(),
        date: date.map(|(y, m, d)| PostDate::from_ymd_opt(y, m, d).unwrap()),
        updated: None,
        draft: false,
    }
}

fn ids(posts: &[PostMeta]) -> Vec<String> {
    posts.iter().map(|p| p.id.clone()).collect()
}

#[test]
fn sort_puts_newest_first_and_undated_last_by_id() {
    let mut posts = vec![
        post("z-undated", None),
        post("old", Some((2020, 5, 1))),
        post("a-undated", None),
        post("new", Some((2026, 1, 2))),
        post("mid", Some((2026, 1, 1))),
    ];
    sort_posts_desc(&mut posts);
    assert_eq!(ids(&posts), vec!["new", "mid", "old", "a-undated", "z-undated"]);
}

#[test]
fn sort_keeps_order_of_same_day_posts() {
    let mut posts = vec![
        post("b", Some((2026, 3, 1))),
        post("a", Some((2026, 3, 1))),
        post("c", Some((2026, 4, 1))),
    ];
    sort_posts_desc(&mut posts);
    assert_eq!(ids(&posts), vec!["c", "b", "a"]);
}

#[test]
fn sort_twice_changes_nothing() {
    let mut posts = vec![post("x", None), post("y", Some((2024, 2, 29))), post("w", None)];
    sort_posts_desc(&mut posts);
    let once = ids(&posts);
    sort_posts_desc(&mut posts);
    assert_eq!(ids(&posts), once);
    assert_eq!(once, vec!["y", "w", "x"]);
}

#[test]
fn meta_from_fields_parses_trimmed_date() {
    let m = post_meta_from_fields(
        "hello".into(),
        "Hello".into(),
        " 2026-03-01 ".into(),
        Some("2026-03-02".into()),
        true,
    )
    .ok()
    .unwrap();
    assert_eq!(m.id, "hello");
    assert_eq!(m.title, "Hello");
    let d = m.date.unwrap();
    assert_eq!((d.year(), d.month(), d.day()), (2026, 3, 1));
    assert_eq!(m.updated.as_deref(), Some("2026-03-02"));
    assert!(m.draft);
}

#[test]
fn meta_from_fields_rejects_bad_date() {
    match post_meta_from_fields("x".into(), "X".into(), "2026-02-30".into(), None, false) {
        Err(MetaError::InvalidDate(raw)) => assert_eq!(raw, "2026-02-30"),
        Ok(_) => panic!("accepted an invalid date"),
    }
    let err = post_meta_from_fields("x".into(), "X".into(), "03/01/2026".into(), None, false);
    match err {
        Err(e) => assert!(e.message().contains("03/01/2026")),
        Ok(_) => panic!("accepted an invalid date"),
    }
}

#[test]
fn meta_from_content_prefers_article_call() {
    let src = "#let title = \"Other\"\n#article(\"Hello\", \"2026-01-02\")[x]";
    let m = post_meta_from_content("slug", src);
    assert_eq!(m.id, "slug");
    assert_eq!(m.title, "Hello");
    let d = m.date.unwrap();
    assert_eq!((d.year(), d.month(), d.day()), (2026, 1, 2));
    assert!(m.updated.is_none());
    assert!(!m.draft);
}

#[test]
fn meta_from_content_falls_back_to_let_and_id() {
    let m = post_meta_from_content("slug", "#let date = \"2025-12-31\"\nbody");
    assert_eq!(m.title, "slug");
    let d = m.date.unwrap();
    assert_eq!((d.year(), d.month(), d.day()), (2025, 12, 31));
    let m2 = post_meta_from_content("p", "#let title = \"T\"\n#let date = \"soon\"\n");
    assert_eq!(m2.title, "T");
    assert!(m2.date.is_none());
}

#[test]
fn post_date_checks_calendar() {
    assert!(PostDate::from_ymd_opt(2024, 2, 29).is_some());
    assert!(PostDate::from_ymd_opt(2023, 2, 29).is_none());
    assert!(PostDate::from_ymd_opt(2026, 13, 1).is_none());
    assert!(PostDate::from_ymd_opt(2026, 4, 31).is_none());
    assert!(PostDate::from_ymd_opt(300000, 1, 1).is_none());
}

#[test]
fn post_date_formats_like_chrono() {
    assert_eq!(PostDate::from_ymd_opt(2026, 3, 1).unwrap().iso_text(), "2026-03-01");
    assert_eq!(PostDate::from_ymd_opt(7, 12, 9).unwrap().iso_text(), "0007-12-09");
    assert_eq!(PostDate::from_ymd_opt(12345, 1, 1).unwrap().iso_text(), "+12345-01-01");
    assert_eq!(PostDate::from_ymd_opt(-5, 1, 1).unwrap().iso_text(), "-0005-01-01");
}

#[test]
fn post_date_parses_iso_text() {
    let d = parse_post_date("2026-03-01").unwrap();
    assert_eq!((d.year(), d.month(), d.day()), (2026, 3, 1));
    assert!(parse_post_date("2026-3-x").is_none());
    assert!(parse_post_date("").is_none());
    let a = PostDate::from_ymd_opt(2026, 3, 2).unwrap();
    let b = PostDate::from_ymd_opt(2026, 3, 1).unwrap();
    assert!(a.is_later_than(&b));
    assert!(!b.is_later_than(&a));
    assert!(!a.is_later_than(&a));
}

#[test]
fn publishable_posts_drop_drafts_in_order() {
    let mut b = post("b", Some((2026, 1, 2)));
    b.draft = true;
    let mut d = post("d", None);
    d.draft = true;
    let posts = vec![post("a", Some((2026, 1, 1))), b, post("c", None), d, post("e", None)];
    assert_eq!(ids(&publishable_posts(posts)), vec!["a", "c", "e"]);
    assert!(publishable_posts(Vec::new()).is_empty());
    let mut only = post("x", None);
    only.draft = true;
    assert!(publishable_posts(vec![only]).is_empty());
}

#[test]
fn sort_post_ids_in_string_order() {
    let mut ids: Vec<String> =
        vec!["b", "a-b", "a", "Z", "a", "hello-2026", "é", "10", "9"].into_iter().map(String::from).collect();
    sort_post_ids(&mut ids);
    assert_eq!(ids, vec!["10", "9", "Z", "a", "a", "a-b", "b", "hello-2026", "é"]);
    let mut none: Vec<String> = Vec::new();
    sort_post_ids(&mut none);
    assert!(none.is_empty());
}
