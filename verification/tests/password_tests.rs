use minitools::password::{
    effective_count, effective_length, evaluate_strength, generate_password, password_report,
    random_char_from_set, random_draws_needed, shuffle, special_chars,
};
use minitools::prompt::{read_bool, read_int, read_string};

#[test]
fn draws_needed_counts_picks_and_shuffle_steps() {
    assert_eq!(random_draws_needed(10, true, true, false), 19);
    assert_eq!(random_draws_needed(0, false, false, false), 1);
    assert_eq!(random_draws_needed(2, true, true, true), 7);
}

#[test]
fn generate_password_exact_value() {
    let rands: Vec<u64> = (0..19).collect();
    assert_eq!(generate_password(10, true, true, true, &rands), "B$fhjige2a");
    let rands2: Vec<u64> = vec![7, 11, 13, 17, 19, 23, 29, 31, 37, 41, 43, 47, 53, 59, 61, 67, 71, 73, 79];
    assert_eq!(generate_password(10, true, true, true, &rands2), "htFDLLPx3}");
}

#[test]
fn generate_password_grows_to_one_per_class() {
    assert_eq!(generate_password(0, false, false, false, &vec![5]), "f");
    let p = generate_password(1, true, true, true, &vec![0; 7]);
    assert_eq!(p.len(), 4);
}

#[test]
fn generate_password_digits_only_extra() {
    assert_eq!(generate_password(4, false, true, false, &vec![1, 2, 3, 4, 5, 6, 7]), "deb2");
}

#[test]
fn generated_password_holds_each_selected_class_and_scores() {
    let rands: Vec<u64> = (0..29).map(|i| i * 2654435761u64).collect();
    let p = generate_password(15, true, true, true, &rands);
    assert_eq!(p.chars().count(), 15);
    assert!(p.chars().any(|c| c.is_ascii_lowercase()));
    assert!(p.chars().any(|c| c.is_ascii_uppercase()));
    assert!(p.chars().any(|c| c.is_ascii_digit()));
    assert_eq!(evaluate_strength(&p), 5);
    let q = generate_password(5, false, false, true, &vec![3; 9]);
    assert_eq!(evaluate_strength(&q), 2);
    assert!(q.chars().all(|c| c.is_ascii_lowercase() || "!@#$%^&*()-_=+[]{}|;:,.<>?".contains(c)));
}

#[test]
fn evaluate_strength_scores() {
    assert_eq!(evaluate_strength(""), 0);
    assert_eq!(evaluate_strength("abc"), 1);
    assert_eq!(evaluate_strength("ABCDEFGH"), 2);
    assert_eq!(evaluate_strength("Password1!"), 5);
    assert_eq!(evaluate_strength("a1"), 2);
    // Ten bytes of UTF-8 in five characters: only the length point.
    assert_eq!(evaluate_strength("ééééé"), 1);
    assert_eq!(evaluate_strength("éé"), 0);
}

#[test]
fn random_char_from_set_reduces_modulo() {
    let set = special_chars();
    assert_eq!(random_char_from_set(&set, 0), '!');
    assert_eq!(random_char_from_set(&set, 27), '@');
    assert_eq!(random_char_from_set(&set, 25), '?');
}

#[test]
fn shuffle_fisher_yates_steps() {
    let mut v = vec!['a', 'b', 'c', 'd'];
    // i = 3: j = 0; i = 2: j = 2; i = 1: j = 0.
    shuffle(&mut v, &vec![4, 5, 2]);
    assert_eq!(v, vec!['b', 'd', 'c', 'a']);
    let mut e: Vec<char> = Vec::new();
    shuffle(&mut e, &vec![]);
    assert!(e.is_empty());
    let mut w = vec!['x', 'y', 'z', 'x'];
    shuffle(&mut w, &vec![9, 8, 7]);
    let mut sorted = w.clone();
    sorted.sort();
    assert_eq!(sorted, vec!['x', 'x', 'y', 'z']);
}

#[test]
fn password_report_format() {
    let rands: Vec<u64> = (0..38).collect();
    let out = password_report(2, 10, true, true, true, &rands);
    let first = generate_password(10, true, true, true, &(0..19).collect());
    let second = generate_password(10, true, true, true, &(19..38).collect());
    let expected = format!(
        "Password 1: {}\nStrength: {}/5\n\nPassword 2: {}\nStrength: {}/5\n\n",
        first,
        evaluate_strength(&first),
        second,
        evaluate_strength(&second)
    );
    assert_eq!(out, expected);
    assert_eq!(password_report(0, 10, true, true, true, &vec![]), "");
    assert_eq!(password_report(-3, 10, true, true, true, &vec![]), "");
    assert_eq!(password_report(0, -5, false, false, false, &vec![]), "");
}

#[test]
fn effective_settings() {
    assert_eq!(effective_length(5), 8);
    assert_eq!(effective_length(8), 8);
    assert_eq!(effective_length(20), 20);
    assert_eq!(effective_count(0), 1);
    assert_eq!(effective_count(-4), 1);
    assert_eq!(effective_count(3), 3);
}

#[test]
fn read_string_trims_and_defaults() {
    assert_eq!(read_string("  hello world \n", "x"), "hello world");
    assert_eq!(read_string(" \t\n", "output_1.txt"), "output_1.txt");
    assert_eq!(read_string("\u{3000}a\u{a0}", "x"), "a");
}

#[test]
fn read_int_cases() {
    let r = read_int("  42\n", 10);
    assert_eq!((r.value, r.invalid), (42, false));
    let r = read_int("\n", 10);
    assert_eq!((r.value, r.invalid), (10, false));
    let r = read_int("abc\n", 10);
    assert_eq!((r.value, r.invalid), (10, true));
    let r = read_int("+7", 1);
    assert_eq!((r.value, r.invalid), (7, false));
    let r = read_int("-2147483648", 1);
    assert_eq!((r.value, r.invalid), (i32::MIN, false));
    let r = read_int("2147483647", 1);
    assert_eq!((r.value, r.invalid), (i32::MAX, false));
    let r = read_int("2147483648", 1);
    assert_eq!((r.value, r.invalid), (1, true));
    let r = read_int("-", 1);
    assert_eq!((r.value, r.invalid), (1, true));
    let r = read_int("0000000000000012", 1);
    assert_eq!((r.value, r.invalid), (12, false));
    let r = read_int("1 2", 1);
    assert_eq!((r.value, r.invalid), (1, true));
}

#[test]
fn read_bool_cases() {
    assert!(read_bool("y\n", false));
    assert!(read_bool("Y", false));
    assert!(read_bool("  YeS \n", false));
    assert!(!read_bool("no\n", true));
    assert!(!read_bool("yess", true));
    assert!(read_bool("\n", true));
    assert!(!read_bool("   ", false));
}

#[test]
fn strength_ignores_character_order() {
    assert_eq!(evaluate_strength("aB3!xyz9"), evaluate_strength("9zyx!3Ba"));
    assert_eq!(evaluate_strength("ééééa"), evaluate_strength("aéééé"));
}

#[test]
fn printed_int_reads_back() {
    for n in [0, 7, -7, 42, 1000, i32::MAX, i32::MIN] {
        let r = read_int(&format!("{}\n", n), 13);
        assert_eq!((r.value, r.invalid), (n, false));
    }
}
