use termcineua::catalog::{seasons, serias, unique_titles};
use termcineua::config::{Cartoon, Category};

fn entry(category: Category, title: &str, season: Option<u8>, seria: Option<u8>, name: Option<&str>, stream: &str) -> Cartoon {
    Cartoon {
        category,
        title: title.to_string(),
        seria_title: name.map(|s| s.to_string()),
        season,
        seria,
        description: None,
        stream: stream.to_string(),
    }
}

fn sample() -> Vec<Cartoon> {
    vec![
        entry(Category::Cartoon, "Футурама", Some(2), Some(3), Some("b"), "f23"),
        entry(Category::Cartoon, "Сімпсони", Some(35), Some(2), Some("s2"), "s352"),
        entry(Category::Film, "Аватар", None, None, None, "film"),
        entry(Category::Cartoon, "Футурама", Some(1), Some(2), Some("a"), "f12"),
        entry(Category::Cartoon, "Сімпсони", Some(35), Some(1), None, "s351"),
        entry(Category::Cartoon, "Футурама", Some(2), Some(1), Some("c"), "f21"),
        entry(Category::Anime, "Наруто", Some(1), Some(1), None, "anime"),
        entry(Category::Cartoon, "Футурама", Some(2), Some(1), Some("d"), "f21bis"),
        entry(Category::Cartoon, "Губка Боб", None, Some(1), None, "gb"),
    ]
}

#[test]
fn unique_titles_are_sorted_distinct_and_numbered() {
    let cs = sample();
    let r = unique_titles(&cs);
    assert_eq!(
        r,
        vec![
            (0, "Губка Боб".to_string()),
            (1, "Сімпсони".to_string()),
            (2, "Футурама".to_string()),
        ]
    );
}

#[test]
fn unique_titles_skip_other_categories() {
    let cs = vec![
        entry(Category::Film, "B", None, None, None, "x"),
        entry(Category::Anime, "A", None, None, None, "y"),
    ];
    assert!(unique_titles(&cs).is_empty());
    assert!(unique_titles(&Vec::new()).is_empty());
}

#[test]
fn unique_titles_order_by_code_point_and_prefix() {
    let cs = vec![
        entry(Category::Cartoon, "ab", None, None, None, ""),
        entry(Category::Cartoon, "a", None, None, None, ""),
        entry(Category::Cartoon, "B", None, None, None, ""),
        entry(Category::Cartoon, "ab", None, None, None, ""),
    ];
    let r: Vec<String> = unique_titles(&cs).into_iter().map(|(_, t)| t).collect();
    assert_eq!(r, vec!["B".to_string(), "a".to_string(), "ab".to_string()]);
}

#[test]
fn seasons_of_chosen_title() {
    let cs = sample();
    let idx = unique_titles(&cs);
    assert_eq!(seasons(3, &idx, &cs), vec![1, 2]);
    assert_eq!(seasons(2, &idx, &cs), vec![35]);
    assert_eq!(seasons(1, &idx, &cs), Vec::<u8>::new());
}

#[test]
fn seasons_out_of_range_is_empty() {
    let cs = sample();
    let idx = unique_titles(&cs);
    assert_eq!(seasons(4, &idx, &cs), Vec::<u8>::new());
    assert_eq!(seasons(usize::MAX, &idx, &cs), Vec::<u8>::new());
}

#[test]
fn serias_sorted_by_number_keeping_order_of_equal_numbers() {
    let cs = sample();
    let idx = unique_titles(&cs);
    let r = serias(3, 2, &idx, &cs);
    assert_eq!(
        r,
        vec![
            (1, "c".to_string(), "f21".to_string()),
            (1, "d".to_string(), "f21bis".to_string()),
            (3, "b".to_string(), "f23".to_string()),
        ]
    );
    let r = serias(3, 1, &idx, &cs);
    assert_eq!(r, vec![(2, "a".to_string(), "f12".to_string())]);
}

#[test]
fn serias_missing_episode_title_is_empty_string() {
    let cs = sample();
    let idx = unique_titles(&cs);
    let r = serias(2, 1, &idx, &cs);
    assert_eq!(
        r,
        vec![
            (1, "".to_string(), "s351".to_string()),
            (2, "s2".to_string(), "s352".to_string()),
        ]
    );
}

#[test]
fn serias_out_of_range_title_is_empty() {
    let cs = sample();
    let idx = unique_titles(&cs);
    assert!(serias(9, 1, &idx, &cs).is_empty());
}

#[test]
fn every_season_in_the_menu_has_episodes() {
    let cs = sample();
    let idx = unique_titles(&cs);
    for t in 1..=idx.len() {
        let ss = seasons(t, &idx, &cs);
        for s in 1..=ss.len() {
            assert!(!serias(t, s, &idx, &cs).is_empty());
        }
    }
}
