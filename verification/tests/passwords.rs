use ddboline_scripts::passwords::{
    create_passwords, get_digits, get_lower_case, get_random_string, get_random_string_from_chars,
    get_special_chars, get_upper_case, pick,
};

#[test]
fn test_get_random_string() {
    let s = get_random_string(12);
    assert_eq!(s.len(), 12);
    println!("{s}");
}

#[test]
fn test_get_random_string_from_chars() {
    let upper = get_upper_case();
    let lower = get_lower_case();
    let digits = get_digits();
    let special = get_special_chars();

    let s = get_random_string_from_chars(16, upper.as_slice());
    assert_eq!(s.len(), 16);
    assert!(s.chars().all(|c| upper.as_slice().contains(&c)));
    println!("{s}");

    let s = get_random_string_from_chars(16, lower.as_slice());
    assert_eq!(s.len(), 16);
    assert!(s.chars().all(|c| lower.as_slice().contains(&c)));
    println!("{s}");

    let upper_lower = [upper.as_slice(), lower.as_slice()].concat();
    let s = get_random_string_from_chars(16, &upper_lower);
    assert_eq!(s.len(), 16);
    assert!(s.chars().all(|c| upper_lower.contains(&c)));
    println!("{s}");

    let chars = [
        upper.as_slice(),
        lower.as_slice(),
        digits.as_slice(),
        special.as_slice(),
    ]
    .concat();

    let s = get_random_string_from_chars(16, &chars);
    assert_eq!(s.len(), 16);
    assert!(s.chars().all(|c| chars.contains(&c)));
    println!("{s}");
}

#[test]
fn alphabets() {
    assert_eq!(
        get_upper_case().as_slice().iter().collect::<String>(),
        "ABCDEFGHIJKLMNOPQRSTUVWXYZ"
    );
    assert_eq!(
        get_lower_case().as_slice().iter().collect::<String>(),
        "abcdefghijklmnopqrstuvwxyz"
    );
    assert_eq!(get_digits().as_slice().iter().collect::<String>(), "0123456789");
    assert_eq!(get_special_chars().as_slice().iter().collect::<String>(), "~@#$%^&*,.()|/?");
}

#[test]
fn tokens_of_all_lengths() {
    for n in [0, 1, 12, 16, 23, 24, 25, 26, 100] {
        let s = get_random_string(n);
        assert_eq!(s.len(), n);
        assert!(s.chars().all(|c| c.is_ascii_alphanumeric()));
    }
    assert_ne!(get_random_string(16), get_random_string(16));
    assert_ne!(get_random_string(64), get_random_string(64));
}

#[test]
fn picking_by_place() {
    assert_eq!(pick(&['x', 'y', 'z'], &vec![2, 0, 0, 1]), "zxxy");
    assert_eq!(pick(&['x'], &vec![]), "");
}

#[test]
fn one_character_to_choose_from() {
    assert_eq!(get_random_string_from_chars(5, &['q']), "qqqqq");
    assert_eq!(get_random_string_from_chars(0, &['q']), "");
}

#[test]
fn draws_cover_the_alphabet() {
    let s = get_random_string_from_chars(2000, get_digits().as_slice());
    for c in "0123456789".chars() {
        assert!(s.contains(c));
    }
}

#[test]
fn five_passwords() {
    let v = create_passwords(40);
    assert_eq!(v.len(), 5);
    assert!(v.iter().all(|p| p.chars().count() == 40));
    assert!(v[0].chars().all(|c| c.is_ascii_uppercase()));
    assert!(v[1].chars().all(|c| c.is_ascii_lowercase()));
    assert!(v[2].chars().all(|c| c.is_ascii_alphabetic()));
    assert!(v[3].chars().all(|c| c.is_ascii_alphanumeric()));
    assert!(v[4].chars().all(|c| c.is_ascii_alphanumeric() || "~@#$%^&*,.()|/?".contains(c)));
}
