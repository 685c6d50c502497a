use termcineua::menu::{main_choice, parse_user_index, pick_stream, season_menu, seria_menu, title_menu, MainChoice};
use termcineua::number::{decimal_string, parse_unsigned};

#[test]
fn title_menu_lines() {
    let idx = vec![(0, "Губка Боб".to_string()), (1, "Футурама".to_string())];
    assert_eq!(title_menu(&idx), vec!["1. Губка Боб".to_string(), "2. Футурама".to_string()]);
}

#[test]
fn season_menu_lines() {
    assert_eq!(season_menu(&vec![1, 12]), vec!["1. Сезон 1".to_string(), "2. Сезон 12".to_string()]);
    assert!(season_menu(&Vec::new()).is_empty());
}

#[test]
fn seria_menu_lines() {
    let s = vec![(3, "Пілот".to_string(), "u".to_string()), (10, "".to_string(), "v".to_string())];
    assert_eq!(seria_menu(&s), vec!["1. Серія 3: Пілот".to_string(), "2. Серія 10: ".to_string()]);
}

#[test]
fn user_index_is_read_like_parse() {
    assert_eq!(parse_user_index("12\n"), Some(12));
    assert_eq!(parse_user_index("  7  "), Some(7));
    assert_eq!(parse_user_index("+7"), Some(7));
    assert_eq!(parse_user_index("0"), Some(0));
    assert_eq!(parse_user_index("-1"), None);
    assert_eq!(parse_user_index("+"), None);
    assert_eq!(parse_user_index(""), None);
    assert_eq!(parse_user_index("1 2"), None);
    assert_eq!(parse_user_index("x"), None);
    assert_eq!(parse_user_index("18446744073709551615"), Some(usize::MAX));
    assert_eq!(parse_user_index("18446744073709551616"), None);
    for s in ["12", " 3", "+0", "abc", "99999999999999999999", "-0", "+-1"] {
        assert_eq!(parse_user_index(s), s.trim().parse::<usize>().ok());
    }
}

#[test]
fn parse_unsigned_respects_bound() {
    let v: Vec<char> = "255".chars().collect();
    assert_eq!(parse_unsigned(&v, 255), Some(255));
    let v: Vec<char> = "256".chars().collect();
    assert_eq!(parse_unsigned(&v, 255), None);
    let v: Vec<char> = "0256".chars().collect();
    assert_eq!(parse_unsigned(&v, 300), Some(256));
}

#[test]
fn menu_numbers_read_back() {
    for n in [0usize, 1, 9, 10, 99, 100, 12345, usize::MAX] {
        let s = decimal_string(n);
        assert_eq!(s, n.to_string());
        assert_eq!(parse_user_index(&s), Some(n));
    }
}

#[test]
fn main_menu_choice() {
    assert_eq!(main_choice("1\n"), MainChoice::Cartoons);
    assert_eq!(main_choice(" 0 "), MainChoice::UpdateConfig);
    assert_eq!(main_choice("2"), MainChoice::Nothing);
    assert_eq!(main_choice("10"), MainChoice::Nothing);
    assert_eq!(main_choice(""), MainChoice::Nothing);
}

#[test]
fn picked_stream() {
    let s = vec![(1, "a".to_string(), "u1".to_string()), (2, "b".to_string(), "u2".to_string())];
    assert_eq!(pick_stream(&s, 2), "u2".to_string());
    assert_eq!(pick_stream(&s, 1), "u1".to_string());
    assert_eq!(pick_stream(&s, 3), "".to_string());
}
