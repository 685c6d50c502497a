use termcineua::config::{Cartoon, Category};
use termcineua::scrape::{Crawl, HeadingError};

fn s(x: &str) -> String {
    x.to_string()
}

#[test]
fn pages_are_visited_depth_first() {
    let mut c = Crawl::new(vec![s("a"), s("b")]);
    assert_eq!(c.next_page(), Some(s("a")));
    c.add_listing(vec![s("c"), s("d")]);
    assert_eq!(c.next_page(), Some(s("c")));
    c.add_listing(vec![s("e")]);
    assert_eq!(c.next_page(), Some(s("e")));
    assert_eq!(c.next_page(), Some(s("d")));
    assert_eq!(c.next_page(), Some(s("b")));
    assert_eq!(c.next_page(), None);
    assert_eq!(c.next_page(), None);
    assert!(c.into_found().is_empty());
}

#[test]
fn episode_pages_add_entries() {
    let mut c = Crawl::new(vec![]);
    let r = c.add_episode(
        s("КЛОПІТ НА ГОЛОВУ"),
        vec![s("Розчарування 5 сезон 1 серія українською"), s("Королева Даґмар допитує жителів Дрімленду.")],
        s("https://example.org/index.m3u8"),
    );
    assert_eq!(r, Ok(()));
    let found = c.into_found();
    assert_eq!(
        found,
        vec![Cartoon {
            category: Category::Cartoon,
            title: s("Розчарування"),
            seria_title: Some(s("КЛОПІТ НА ГОЛОВУ")),
            season: Some(5),
            seria: Some(1),
            description: Some(s("Королева Даґмар допитує жителів Дрімленду.")),
            stream: s("https://example.org/index.m3u8"),
        }]
    );
}

#[test]
fn missing_texts_get_defaults() {
    let mut c = Crawl::new(vec![]);
    assert_eq!(c.add_episode(s("h"), vec![], s("x")), Ok(()));
    assert_eq!(c.add_episode(s("h2"), vec![s("Футурама 1 сезон 2 серія")], s("y")), Ok(()));
    let found = c.into_found();
    assert_eq!(found[0].title, s("title"));
    assert_eq!(found[0].season, Some(99));
    assert_eq!(found[0].seria, Some(99));
    assert_eq!(found[0].description, Some(s("description")));
    assert_eq!(found[1].title, s("Футурама"));
    assert_eq!(found[1].season, Some(1));
    assert_eq!(found[1].seria, Some(2));
    assert_eq!(found[1].description, Some(s("description")));
}

#[test]
fn unreadable_numbers_leave_the_catalogue_unchanged() {
    let mut c = Crawl::new(vec![s("a")]);
    assert_eq!(c.add_episode(s("h"), vec![s("Шоу 300 сезон 1 серія")], s("x")), Err(HeadingError::EpisodeNumber));
    assert_eq!(c.next_page(), Some(s("a")));
    assert!(c.into_found().is_empty());
}
