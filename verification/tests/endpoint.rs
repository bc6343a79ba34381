use rchan::api::endpoint::{append_decimal, Endpoint};

#[test]
fn urls_follow_the_path_table() {
    let g = "g".to_string();
    assert_eq!(Endpoint::Boards.url(false), "http://a.4cdn.org/boards.json");
    assert_eq!(Endpoint::Threads(g.clone()).url(false), "http://a.4cdn.org/g/threads.json");
    assert_eq!(Endpoint::Catalog(g.clone()).url(false), "http://a.4cdn.org/g/catalog.json");
    assert_eq!(Endpoint::Archive(g.clone()).url(false), "http://a.4cdn.org/g/archive.json");
    assert_eq!(Endpoint::Index(g.clone(), 3).url(false), "http://a.4cdn.org/g/3.json");
    assert_eq!(
        Endpoint::Thread(g.clone(), 99566851).url(false),
        "http://a.4cdn.org/g/thread/99566851.json"
    );
}

#[test]
fn the_flag_selects_the_scheme() {
    let e = Endpoint::Thread("pol".to_string(), 7);
    assert_eq!(e.url(true), "https://a.4cdn.org/pol/thread/7.json");
    assert_eq!(e.url(false), "http://a.4cdn.org/pol/thread/7.json");
    assert_eq!(e.https(), e.url(true));
    assert_eq!(e.http(), e.url(false));
    assert_eq!(e.to_string(), "a.4cdn.org/pol/thread/7.json");
}

#[test]
fn numbers_render_in_decimal() {
    let mut text = String::from("n=");
    append_decimal(&mut text, 0);
    assert_eq!(text, "n=0");
    let mut text = String::new();
    append_decimal(&mut text, -15);
    assert_eq!(text, "-15");
    let mut text = String::new();
    append_decimal(&mut text, i32::MAX);
    assert_eq!(text, "2147483647");
    let mut text = String::new();
    append_decimal(&mut text, i32::MIN);
    assert_eq!(text, "-2147483648");
    let mut text = String::new();
    append_decimal(&mut text, 1000);
    assert_eq!(text, "1000");
    assert_eq!(Endpoint::Index("b".to_string(), -2).url(false), "http://a.4cdn.org/b/-2.json");
}

#[test]
fn endpoints_are_equal_when_all_components_match() {
    let g = "g".to_string();
    assert!(Endpoint::Boards == Endpoint::Boards);
    assert!(Endpoint::Threads(g.clone()) == Endpoint::Threads(g.clone()));
    assert!(Endpoint::Threads(g.clone()) != Endpoint::Threads("v".to_string()));
    assert!(Endpoint::Threads(g.clone()) != Endpoint::Catalog(g.clone()));
    assert!(Endpoint::Thread(g.clone(), 1) == Endpoint::Thread(g.clone(), 1));
    assert!(Endpoint::Thread(g.clone(), 1) != Endpoint::Thread(g.clone(), 2));
    assert!(Endpoint::Thread(g.clone(), 1) != Endpoint::Index(g.clone(), 1));
    assert!(Endpoint::Boards != Endpoint::Archive(g.clone()));
    let copy = Endpoint::Index(g.clone(), 4).clone();
    assert!(copy == Endpoint::Index(g, 4));
}
