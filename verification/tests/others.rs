use belot::five::{callReturnFive, returnFive};
use belot::input::{parse_choice, ChoiceError};
use belot::shoes::{specific_shoe_size, Shoe};
use belot::summary::{NewsPaper, Summary, Tweet};

#[test]
fn tweets_and_newspapers_sum_up() {
    let ihlon = Tweet {
        user: String::from("ihlon ma"),
        content: String::from("birds arent real istg"),
        online_status: true,
    };
    assert_eq!(ihlon.summerize(), "ihlon ma(onl): birds arent real istg");
    let off = Tweet { user: String::from("a"), content: String::from("b"), online_status: false };
    assert_eq!(off.summerize(), "a(off): b");
    let sokol = NewsPaper {
        headline: String::from("Hristo Botev Prevze Radecki!"),
        content: String::from("Uspq da vzeme Radecki!"),
        date: String::from("1 - 04 - 1876"),
    };
    assert_eq!(sokol.summerize(), "1 - 04 - 1876 Hristo Botev Prevze Radecki!: Uspq da vzeme Radecki!");
}

#[test]
fn shoes_of_one_size() {
    let store = vec![
        Shoe { name: String::from("sandal"), size: 12 },
        Shoe { name: String::from("boot"), size: 13 },
        Shoe { name: String::from("sneaker"), size: 12 },
    ];
    let mine = specific_shoe_size(store, 12);
    let names: Vec<&str> = mine.iter().map(|s| s.name.as_str()).collect();
    assert_eq!(names, vec!["sandal", "sneaker"]);
    assert!(specific_shoe_size(vec![], 12).is_empty());
}

#[test]
fn five_is_five() {
    assert_eq!(returnFive(), 5);
    assert_eq!(callReturnFive(), 5);
}

#[test]
fn reading_a_choice() {
    assert_eq!(parse_choice("3", 7), Ok(2));
    assert_eq!(parse_choice("+1", 7), Ok(0));
    assert_eq!(parse_choice("007", 7), Ok(6));
    assert_eq!(parse_choice("8", 7), Err(ChoiceError::InvalidNumber));
    assert_eq!(parse_choice("0", 7), Err(ChoiceError::InvalidNumber));
    assert_eq!(parse_choice("", 7), Err(ChoiceError::InvalidInput));
    assert_eq!(parse_choice("+", 7), Err(ChoiceError::InvalidInput));
    assert_eq!(parse_choice("-1", 7), Err(ChoiceError::InvalidInput));
    assert_eq!(parse_choice("two", 7), Err(ChoiceError::InvalidInput));
    assert_eq!(parse_choice("99999999999999999999999", 7), Err(ChoiceError::InvalidInput));
    // agrees with the standard parser
    for s in ["12", "+5", "1a", " 1", "18446744073709551615", "18446744073709551616"] {
        let ours = parse_choice(s, usize::MAX).is_ok();
        assert_eq!(ours, s.parse::<usize>().map(|n| n != 0).unwrap_or(false));
    }
}
