use termcineua::config::Cartoon;
use termcineua::title::{classify_title, parse_episode_title, title_numbers_of, TitleChar};

#[test]
fn known_series_get_fixed_names() {
    assert_eq!(
        Cartoon::get_season_and_seria_and_title("Сімпсони 35 сезон 2 серія українською".to_string()),
        (35, 2, "Сімпсони".to_string())
    );
    assert_eq!(
        Cartoon::get_season_and_seria_and_title("ГУБКА БОБ 12 сезон 7 серія".to_string()),
        (12, 7, "Губка Боб".to_string())
    );
    assert_eq!(
        Cartoon::get_season_and_seria_and_title("Кінь БоДжек 6 сезон 16 серія".to_string()),
        (6, 16, "Кінь БоДжек".to_string())
    );
    assert_eq!(
        Cartoon::get_season_and_seria_and_title("Картманові пригоди 3 сезон 1 серія".to_string()),
        (3, 1, "Південний Парк".to_string())
    );
    assert_eq!(
        Cartoon::get_season_and_seria_and_title("Дунканвілл 1 сезон 2 серія".to_string()),
        (1, 2, "Дунканвілль".to_string())
    );
}

#[test]
fn first_matching_series_wins() {
    assert_eq!(
        Cartoon::get_season_and_seria_and_title("Сімпсони і Футурама 1 сезон 1 серія".to_string()),
        (1, 1, "Сімпсони".to_string())
    );
}

#[test]
fn other_titles_keep_their_words() {
    assert_eq!(
        Cartoon::get_season_and_seria_and_title("Розчарування 5 сезон 1 серія українською".to_string()),
        (5, 1, "Розчарування".to_string())
    );
    assert_eq!(
        Cartoon::get_season_and_seria_and_title("  Туке та Берті, 2 сезон 10 серія!".to_string()),
        (2, 10, "Туке та Берті".to_string())
    );
}

#[test]
fn fewer_than_two_numbers_give_99() {
    assert_eq!(
        Cartoon::get_season_and_seria_and_title("Футурама фільм 1".to_string()),
        (99, 99, "Футурама".to_string())
    );
    assert_eq!(
        Cartoon::get_season_and_seria_and_title("Без чисел".to_string()),
        (99, 99, "Без чисел".to_string())
    );
}

#[test]
fn leading_zeros_and_extra_numbers() {
    assert_eq!(
        Cartoon::get_season_and_seria_and_title("Шоу 007 сезон 08 серія 2019".to_string()),
        (7, 8, "Шоу".to_string())
    );
}

#[test]
fn numbers_that_are_not_u8_are_refused() {
    assert_eq!(Cartoon::try_season_and_seria_and_title("Шоу 256 сезон 1 серія"), None);
    assert_eq!(Cartoon::try_season_and_seria_and_title("Шоу ٣ сезон 1 серія"), None);
    assert_eq!(
        Cartoon::try_season_and_seria_and_title("Шоу 255 сезон 1 серія 999"),
        Some((255, 1, "Шоу".to_string()))
    );
}

#[test]
fn classification_follows_std() {
    let c = classify_title("a 1٣");
    assert_eq!(c.len(), 4);
    assert_eq!(c[0], TitleChar { ch: 'a', numeric: false, alphabetic: true, whitespace: false });
    assert_eq!(c[1], TitleChar { ch: ' ', numeric: false, alphabetic: false, whitespace: true });
    assert_eq!(c[2], TitleChar { ch: '1', numeric: true, alphabetic: false, whitespace: false });
    assert_eq!(c[3], TitleChar { ch: '٣', numeric: true, alphabetic: false, whitespace: false });
}

fn tc(ch: char, numeric: bool, alphabetic: bool, whitespace: bool) -> TitleChar {
    TitleChar { ch, numeric, alphabetic, whitespace }
}

#[test]
fn parse_from_given_classes() {
    // A digit that is flagged as not numeric is not part of any number.
    let s = vec![
        tc('x', false, true, false),
        tc('1', true, false, false),
        tc('2', false, false, false),
        tc('3', true, false, false),
    ];
    assert_eq!(title_numbers_of(&s), Some((1, 3)));
    assert_eq!(parse_episode_title(&s), Some((1, 3, "x".to_string())));
}
