use typlog_core::parse::{parse_article_call, parse_leading_quoted, parse_let_value};

#[test]
fn parse_parse_let_should_read_title_and_date() {
    let s = r#"#let title = "Hello"
#let date = "2026-01-02"
"#;
    assert_eq!(parse_let_value(s, "title").as_deref(), Some("Hello"));
    assert_eq!(parse_let_value(s, "date").as_deref(), Some("2026-01-02"));
}

#[test]
fn main_parse_let_should_read_title_and_date() {
    let s = r#"#let title = "Hello"
#let date = "2026-01-02"
"#;
    assert_eq!(parse_let_value(s, "title").as_deref(), Some("Hello"));
    assert_eq!(parse_let_value(s, "date").as_deref(), Some("2026-01-02"));
}

#[test]
fn parse_parse_article_call_should_read_title_and_date() {
    let s = r#"#import "/templates/article.typ": article

#article("Hello", "2026-01-02")[
正文
]
"#;
    let (t, d) = parse_article_call(s).expect("article");
    assert_eq!(t, "Hello");
    assert_eq!(d, "2026-01-02");
}

#[test]
fn main_parse_article_call_should_read_title_and_date() {
    let s = r#"#import "/templates/article.typ": article

#article("Hello", "2026-01-02")[
正文
]
"#;
    let (t, d) = parse_article_call(s).expect("article");
    assert_eq!(t, "Hello");
    assert_eq!(d, "2026-01-02");
}

#[test]
fn article_call_reads_back_what_it_is_given() {
    let s = "#article(\"T i t l e\", \"D\")[body]";
    assert_eq!(parse_article_call(s), Some(("T i t l e".to_string(), "D".to_string())));
}

#[test]
fn article_call_needs_comma_and_quotes() {
    assert_eq!(parse_article_call("#article(\"A\" \"B\")"), None);
    assert_eq!(parse_article_call("#article(A, \"B\")"), None);
    assert_eq!(parse_article_call("no call here"), None);
    assert_eq!(parse_article_call("#article(\"A\",\n   \"B\""), Some(("A".into(), "B".into())));
}

#[test]
fn leading_quoted_advances_rest() {
    let mut rest: &str = "  \"abc\" tail";
    assert_eq!(parse_leading_quoted(&mut rest).as_deref(), Some("abc"));
    assert_eq!(rest, " tail");
    let mut bad: &str = " abc";
    assert_eq!(parse_leading_quoted(&mut bad), None);
    assert_eq!(bad, " abc");
    let mut open: &str = "\"abc";
    assert_eq!(parse_leading_quoted(&mut open), None);
    assert_eq!(open, "\"abc");
}

#[test]
fn let_value_scans_trimmed_lines_only_first_128() {
    let s = "  #let title = \"Spaced\"  \r\n";
    assert_eq!(parse_let_value(s, "title").as_deref(), Some("Spaced"));
    let mut long = String::new();
    for _ in 0..128 {
        long.push_str("x\n");
    }
    long.push_str("#let title = \"Late\"\n");
    assert_eq!(parse_let_value(&long, "title"), None);
    assert_eq!(parse_let_value("#let title = \"open", "title"), None);
}
