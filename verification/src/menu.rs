//! The text of the terminal menus and the reading of what the user types.
use vstd::prelude::*;
use vstd::string::StringExecFns;
use crate::catalog::chosen_title;
use crate::number::{
    decimal_spec, lemma_decimal_parses_back, parse_unsigned, parse_unsigned_spec, push_decimal,
};
use crate::text::{chars_of, compare_chars, trim_chars, trim_spec, LexOrder};

verus! {

/// A menu line: its number, ". " and its text.
pub open spec fn title_line(number: nat, text: Seq<char>) -> Seq<char> {
    decimal_spec(number) + ". "@ + text
}

/// A line of the season menu: its number and the season's number.
pub open spec fn season_line(number: nat, season: u8) -> Seq<char> {
    decimal_spec(number) + ". Сезон "@ + decimal_spec(season as nat)
}

/// A line of the episode menu: its number, the episode's number and its title.
pub open spec fn seria_line(number: nat, seria: u8, name: Seq<char>) -> Seq<char> {
    decimal_spec(number) + ". Серія "@ + decimal_spec(seria as nat) + ": "@ + name
}

/// The lines of the title menu: each title after its position plus one.
pub fn title_menu(indexed: &Vec<(usize, String)>) -> (r: Vec<String>)
    requires
        forall|i: int| 0 <= i < indexed.len() ==> (#[trigger] indexed@[i]).0 < usize::MAX,
    ensures
        r.len() == indexed.len(),
        forall|i: int|
            0 <= i < r.len() ==> (#[trigger] r@[i])@ == title_line(
                (indexed@[i].0 + 1) as nat,
                indexed@[i].1@,
            ),
{
    let mut r: Vec<String> = Vec::new();
    let mut i: usize = 0;
    while i < indexed.len()
        invariant
            i <= indexed.len(),
            r.len() == i,
            forall|m: int| 0 <= m < indexed.len() ==> (#[trigger] indexed@[m]).0 < usize::MAX,
            forall|m: int|
                0 <= m < i ==> (#[trigger] r@[m])@ == title_line(
                    (indexed@[m].0 + 1) as nat,
                    indexed@[m].1@,
                ),
        decreases indexed.len() - i,
    {
        let (n, t) = &indexed[i];
        let mut line = String::new();
        push_decimal(&mut line, *n + 1);
        line.append(". ");
        line.append(t.as_str());
        r.push(line);
        i = i + 1;
    }
    r
}

/// The lines of the season menu: each season after its position plus one.
pub fn season_menu(seasons: &Vec<u8>) -> (r: Vec<String>)
    ensures
        r.len() == seasons.len(),
        forall|i: int|
            0 <= i < r.len() ==> (#[trigger] r@[i])@ == season_line((i + 1) as nat, seasons@[i]),
{
    let mut r: Vec<String> = Vec::new();
    let mut i: usize = 0;
    while i < seasons.len()
        invariant
            i <= seasons.len(),
            r.len() == i,
            forall|m: int|
                0 <= m < i ==> (#[trigger] r@[m])@ == season_line((m + 1) as nat, seasons@[m]),
        decreases seasons.len() - i,
    {
        let mut line = String::new();
        push_decimal(&mut line, i + 1);
        line.append(". Сезон ");
        push_decimal(&mut line, seasons[i] as usize);
        r.push(line);
        i = i + 1;
    }
    r
}

/// The lines of the episode menu: each episode's number and title after its
/// position plus one.
pub fn seria_menu(serias: &Vec<(u8, String, String)>) -> (r: Vec<String>)
    ensures
        r.len() == serias.len(),
        forall|i: int|
            0 <= i < r.len() ==> (#[trigger] r@[i])@ == seria_line(
                (i + 1) as nat,
                serias@[i].0,
                serias@[i].1@,
            ),
{
    let mut r: Vec<String> = Vec::new();
    let mut i: usize = 0;
    while i < serias.len()
        invariant
            i <= serias.len(),
            r.len() == i,
            forall|m: int|
                0 <= m < i ==> (#[trigger] r@[m])@ == seria_line(
                    (m + 1) as nat,
                    serias@[m].0,
                    serias@[m].1@,
                ),
        decreases serias.len() - i,
    {
        let (num, name, _) = &serias[i];
        let mut line = String::new();
        push_decimal(&mut line, i + 1);
        line.append(". Серія ");
        push_decimal(&mut line, *num as usize);
        line.append(": ");
        line.append(name.as_str());
        r.push(line);
        i = i + 1;
    }
    r
}

/// The number that a line typed by the user holds: the line without leading
/// and trailing whitespace, read as `str::parse::<usize>` reads it; `None`
/// where it is not such a number.
pub fn parse_user_index(line: &str) -> (r: Option<usize>)
    ensures
        (r is Some) == (parse_unsigned_spec(trim_spec(line@), usize::MAX as nat) is Some),
        r matches Some(v) ==> v == parse_unsigned_spec(trim_spec(line@), usize::MAX as nat)->0,
{
    let cs = chars_of(line);
    let t = trim_chars(&cs);
    parse_unsigned(&t, usize::MAX)
}

/// What the user picked in the main menu.
#[derive(Debug, Clone, Copy, PartialEq, Eq, Structural)]
pub enum MainChoice {
    /// "1": browse the cartoons.
    Cartoons,
    /// "0": collect the catalogue anew from the site.
    UpdateConfig,
    /// Anything else: do nothing.
    Nothing,
}

/// The main menu choice that the line `line` selects.
pub open spec fn main_choice_spec(line: Seq<char>) -> MainChoice {
    if trim_spec(line) == "1"@ {
        MainChoice::Cartoons
    } else if trim_spec(line) == "0"@ {
        MainChoice::UpdateConfig
    } else {
        MainChoice::Nothing
    }
}

/// The main menu choice that a line typed by the user selects, read without
/// leading and trailing whitespace.
pub fn main_choice(line: &str) -> (r: MainChoice)
    ensures
        r == main_choice_spec(line@),
{
    let cs = chars_of(line);
    let t = trim_chars(&cs);
    let one = chars_of("1");
    let zero = chars_of("0");
    if compare_chars(&t, &one) == LexOrder::Equal {
        MainChoice::Cartoons
    } else if compare_chars(&t, &zero) == LexOrder::Equal {
        MainChoice::UpdateConfig
    } else {
        MainChoice::Nothing
    }
}

/// The stream address of the episode at menu number `choice_number`
/// (numbered from 1), or "" where the menu has no such line.
pub fn pick_stream(serias: &Vec<(u8, String, String)>, choice_number: usize) -> (r: String)
    requires
        choice_number >= 1,
    ensures
        r@ == (if choice_number - 1 < serias.len() {
            serias@[choice_number - 1].2@
        } else {
            Seq::<char>::empty()
        }),
{
    let choice = choice_number - 1;
    if choice < serias.len() {
        serias[choice].2.clone()
    } else {
        String::new()
    }
}

/// Typing back the number shown in front of a line of the title menu selects
/// the title on that line.
pub proof fn lemma_title_number_selects_title(indexed: Seq<(usize, String)>, i: int)
    requires
        indexed.len() <= usize::MAX,
        0 <= i < indexed.len(),
        forall|k: int| 0 <= k < indexed.len() ==> (#[trigger] indexed[k]).0 == k,
    ensures
        parse_unsigned_spec(decimal_spec((indexed[i].0 + 1) as nat), usize::MAX as nat) == Some(
            (i + 1) as nat,
        ),
        chosen_title(indexed, (i + 1) as usize) == Some(indexed[i].1@),
{
    lemma_decimal_parses_back((i + 1) as nat, usize::MAX as nat);
}

/// The main menu selects the cartoons on the digit 1 and the update on the
/// digit 0, each alone on the line once whitespace around it is dropped, and
/// nothing on any other line.
pub proof fn lemma_main_choice(line: Seq<char>)
    ensures
        (main_choice_spec(line) == MainChoice::Cartoons) <==> trim_spec(line) == seq!['1'],
        (main_choice_spec(line) == MainChoice::UpdateConfig) <==> trim_spec(line) == seq!['0'],
{
    reveal_strlit("1");
    reveal_strlit("0");
    assert("1"@ =~= seq!['1']);
    assert("0"@ =~= seq!['0']);
    assert(seq!['0'][0] != seq!['1'][0]);
    assert(seq!['0'] != seq!['1']);
}

/// A title-menu line is the number, a full stop, a space and the title.
pub proof fn lemma_title_line(number: nat, text: Seq<char>)
    ensures
        title_line(number, text) == decimal_spec(number) + seq!['.', ' '] + text,
{
    reveal_strlit(". ");
}

/// A season-menu line is the number, ". Сезон " and the season's number.
pub proof fn lemma_season_line(number: nat, season: u8)
    ensures
        season_line(number, season) == decimal_spec(number) + seq![
            '.',
            ' ',
            'С',
            'е',
            'з',
            'о',
            'н',
            ' ',
        ] + decimal_spec(season as nat),
{
    reveal_strlit(". Сезон ");
}

/// An episode-menu line is the number, ". Серія ", the episode's number,
/// ": " and the episode's title.
pub proof fn lemma_seria_line(number: nat, seria: u8, name: Seq<char>)
    ensures
        seria_line(number, seria, name) == decimal_spec(number) + seq![
            '.',
            ' ',
            'С',
            'е',
            'р',
            'і',
            'я',
            ' ',
        ] + decimal_spec(seria as nat) + seq![':', ' '] + name,
{
    reveal_strlit(". Серія ");
    reveal_strlit(": ");
}

} // verus!
