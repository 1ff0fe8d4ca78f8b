use password_vault::password_generator::{
    char_in_class, check_password_safety, common_password_lines, contains_class, count_distinct,
    generate_password, is_common_password, password_char, CharClass,
};

const POOL: &str =
    "abcdefghijklmnopqrstuvwxyzABCDEFGHIJKLMNOPQRSTUVWXYZ0123456789!@#$%^&*()_+-=[]{}|;:,.<>?";

fn common_passwords() -> Vec<String> {
    vec![
        "123456".to_string(),
        "password".to_string(),
        "qwerty".to_string(),
        "password123".to_string(),
        "letmein".to_string(),
    ]
}

#[test]
fn test_generate_password() {
    let password = generate_password(16);
    assert_eq!(password.len(), 16);
}

#[test]
fn test_check_password_safety() {
    let list = common_passwords();
    let (safety_rating, safety_message) = check_password_safety("password", &list);
    assert_eq!(safety_rating, 0);
    assert_eq!(safety_message, vec!["This password is on a common password list".to_string()]);

    let (safety_rating, safety_message) = check_password_safety("password123", &list);
    assert_eq!(safety_rating, 0);
    assert_eq!(safety_message, vec!["This password is on a common password list".to_string()]);

    let (safety_rating, safety_message) = check_password_safety("P@ssw0rd123", &list);
    assert_eq!(safety_rating, 50);
    let empty_vec: Vec<String> = Vec::new();
    assert_eq!(safety_message, empty_vec);
}

#[test]
fn test_good_password() {
    let password = "[bX+L+$8x4T7";
    let (safety_rating, safety_message) = check_password_safety(password, &common_passwords());
    assert_eq!(safety_rating, 50);
    let empty_vec: Vec<String> = Vec::new();
    assert_eq!(safety_message, empty_vec);
}

#[test]
fn test_bad_passwords_not_common() {
    let list = common_passwords();
    // No uppercase letters
    let (safety_rating, safety_message) = check_password_safety("[bx+l+$8x4t7", &list);
    assert_eq!(safety_rating, 45);
    assert_eq!(safety_message, vec!["This password has no uppercase letters".to_string()]);

    // No lowercase letters
    let (safety_rating, safety_message) = check_password_safety("[BX+L+$8X4T7", &list);
    assert_eq!(safety_rating, 45);
    assert_eq!(safety_message, vec!["This password has no lowercase letters".to_string()]);

    // No numbers
    let (safety_rating, safety_message) = check_password_safety("[bX+L+$xT", &list);
    assert_eq!(safety_rating, 45);
    assert_eq!(safety_message, vec!["This password has no numbers".to_string()]);

    // No special characters
    let (safety_rating, safety_message) = check_password_safety("bXLP8x4T7", &list);
    assert_eq!(safety_rating, 45);
    assert_eq!(safety_message, vec!["This password has no special characters".to_string()]);

    // Not enough distinct characters
    let (safety_rating, safety_message) = check_password_safety("XXX]X4t7X", &list);
    assert_eq!(safety_rating, 40);
    assert_eq!(safety_message, vec!["This password has too few distinct characters".to_string()]);

    // No special characters and no numbers
    let (safety_rating, safety_message) = check_password_safety("bXLPxTxYpT", &list);
    assert_eq!(safety_rating, 40);
    assert_eq!(
        safety_message,
        vec![
            "This password has no numbers".to_string(),
            "This password has no special characters".to_string()
        ]
    );

    // Too short
    let (safety_rating, safety_message) = check_password_safety("[BX+l", &list);
    assert_eq!(safety_rating, 10);
    assert_eq!(safety_message, vec!["This password is too short".to_string()]);
}

#[test]
fn short_password_gets_a_single_finding() {
    let (rating, findings) = check_password_safety("short", &common_passwords());
    assert_eq!(rating, 10);
    assert_eq!(findings, vec!["This password is too short".to_string()]);
}

#[test]
fn listed_password_is_rated_before_its_length() {
    // "qwerty" is both listed and too short: only the list counts.
    let (rating, findings) = check_password_safety("qwerty", &common_passwords());
    assert_eq!(rating, 0);
    assert_eq!(findings, vec!["This password is on a common password list".to_string()]);
}

#[test]
fn empty_list_lets_every_password_through() {
    let (rating, findings) = check_password_safety("password", &Vec::new());
    // Eight lowercase letters, seven of them different.
    assert_eq!(rating, 35);
    assert_eq!(
        findings,
        vec![
            "This password has no uppercase letters".to_string(),
            "This password has no numbers".to_string(),
            "This password has no special characters".to_string()
        ]
    );
}

#[test]
fn every_check_failing_gives_the_base_rating() {
    // Eight bytes, one distinct character, which is numeric.
    let (rating, findings) = check_password_safety("11111111", &common_passwords());
    assert_eq!(rating, 25);
    assert_eq!(
        findings,
        vec![
            "This password has too few distinct characters".to_string(),
            "This password has no uppercase letters".to_string(),
            "This password has no lowercase letters".to_string(),
            "This password has no special characters".to_string()
        ]
    );
}

#[test]
fn length_is_counted_in_bytes() {
    // Four characters of two bytes each reach the minimum length.
    let (rating, findings) = check_password_safety("éééé", &common_passwords());
    assert_eq!(rating, 25);
    assert_eq!(
        findings,
        vec![
            "This password has too few distinct characters".to_string(),
            "This password has no uppercase letters".to_string(),
            "This password has no numbers".to_string(),
            "This password has no special characters".to_string()
        ]
    );
}

#[test]
fn repeated_characters_count_once_each() {
    // Six different characters, each twice.
    let (rating, findings) = check_password_safety("aAbB1!aAbB1!", &common_passwords());
    assert_eq!(rating, 50);
    assert!(findings.is_empty());
    assert_eq!(count_distinct(&"aAbB1!aAbB1!".chars().collect()), 6);
    assert_eq!(count_distinct(&Vec::new()), 0);
    assert_eq!(count_distinct(&"XXX]X4t7X".chars().collect()), 5);
}

#[test]
fn rating_is_the_same_on_every_call() {
    let list = common_passwords();
    assert_eq!(
        check_password_safety("Tr0ub4dor&3", &list),
        check_password_safety("Tr0ub4dor&3", &list)
    );
}

#[test]
fn list_membership_is_exact() {
    let list = common_passwords();
    assert!(is_common_password("letmein", &list));
    assert!(!is_common_password("letmein ", &list));
    assert!(!is_common_password("Letmein", &list));
    assert!(!is_common_password("", &list));
    assert!(!is_common_password("letmein", &Vec::new()));
}

#[test]
fn character_classes_follow_the_standard_library() {
    assert!(char_in_class('A', CharClass::Uppercase));
    assert!(!char_in_class('a', CharClass::Uppercase));
    assert!(char_in_class('a', CharClass::Lowercase));
    assert!(!char_in_class('1', CharClass::Lowercase));
    assert!(char_in_class('7', CharClass::Number));
    assert!(!char_in_class('x', CharClass::Number));
    assert!(char_in_class('$', CharClass::Special));
    assert!(char_in_class(' ', CharClass::Special));
    assert!(!char_in_class('z', CharClass::Special));
    assert!(!char_in_class('0', CharClass::Special));
    assert!(contains_class(&vec!['a', 'B'], CharClass::Uppercase));
    assert!(!contains_class(&vec!['a', 'b'], CharClass::Uppercase));
    assert!(!contains_class(&Vec::new(), CharClass::Special));
}

#[test]
fn password_char_puts_hyphens_at_every_fourth_position() {
    assert_eq!(password_char(0, 0), 'a');
    assert_eq!(password_char(0, 87), '?');
    assert_eq!(password_char(1, 26), 'A');
    assert_eq!(password_char(3, 52), '0');
    assert_eq!(password_char(4, 52), '-');
    assert_eq!(password_char(8, 0), '-');
    assert_eq!(password_char(9, 62), '!');
    assert_eq!(password_char(4_000_000_000, 5), '-');
}

#[test]
fn generated_password_has_the_stated_shape() {
    let password: Vec<char> = generate_password(41).chars().collect();
    assert_eq!(password.len(), 41);
    for (i, c) in password.iter().enumerate() {
        if i % 4 == 0 && i != 0 {
            assert_eq!(*c, '-');
        } else {
            assert!(POOL.contains(*c));
        }
    }
    assert_eq!(generate_password(0), "");
    assert_eq!(generate_password(1).chars().count(), 1);
}

#[test]
fn generated_passwords_differ() {
    assert_ne!(generate_password(40), generate_password(40));
}

#[test]
fn list_text_is_split_into_lines() {
    assert_eq!(common_password_lines("123456\npassword\nqwerty\n"), vec!["123456", "password", "qwerty"]);
    assert_eq!(common_password_lines("123456\npassword"), vec!["123456", "password"]);
    assert_eq!(common_password_lines("one\r\ntwo\r\n"), vec!["one", "two"]);
    assert_eq!(common_password_lines(""), Vec::<String>::new());
    assert_eq!(common_password_lines("\n"), vec![""]);
    assert_eq!(common_password_lines("\n\n"), vec!["", ""]);
    assert_eq!(common_password_lines("a\n\nb"), vec!["a", "", "b"]);
    assert_eq!(common_password_lines("only"), vec!["only"]);
}

#[test]
fn carriage_returns_belong_to_a_line_unless_a_line_feed_follows() {
    assert_eq!(common_password_lines("a\rb\n"), vec!["a\rb"]);
    assert_eq!(common_password_lines("a\r"), vec!["a\r"]);
    assert_eq!(common_password_lines("a\r\r\n"), vec!["a\r"]);
    assert_eq!(common_password_lines("\r\n"), vec![""]);
    assert_eq!(common_password_lines(" padded \n"), vec![" padded "]);
}

#[test]
fn lines_agree_with_the_standard_library() {
    for text in ["", "\n", "a", "a\n", "a\nb", "a\r\nb\r\n", "\r", "\r\n\r\n", "x\n\ny\r", "päss\nwörd\n"] {
        let expected: Vec<String> = text.lines().map(|line| line.to_string()).collect();
        assert_eq!(common_password_lines(text), expected);
    }
}

#[test]
fn a_password_is_rated_against_the_lines_of_a_list() {
    let list = common_password_lines("123456\r\npassword\r\nqwerty");
    assert_eq!(check_password_safety("password", &list).0, 0);
    assert_eq!(check_password_safety("qwerty", &list).0, 0);
    assert_eq!(check_password_safety("passwor", &list).0, 10);
}
