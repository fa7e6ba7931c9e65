use server_fns::error::{InvalidArgument, MyErrors};
use server_fns::handlers::{
    ascii_uppercase, ascii_uppercase_classic, ascii_uppercase_inner, length_of_input, other_error,
    postcard_example, rkyv_example, shouting_text, why_not, PostcardData, ServerFnError,
};
use server_fns::progress::{file_length, ProgressTracker};
use server_fns::rows::RowStore;

#[test]
fn uppercase_accepts_hello() {
    assert_eq!(ascii_uppercase_inner("hello".to_string()).unwrap(), "HELLO");
}

#[test]
fn uppercase_refuses_short_text() {
    assert!(matches!(ascii_uppercase_inner("hi".to_string()), Err(InvalidArgument::TooShort)));
}

#[test]
fn uppercase_refuses_long_text() {
    let text = "abcdefghijklmnopqrst".to_string();
    assert_eq!(text.len(), 20);
    assert!(matches!(ascii_uppercase_inner(text), Err(InvalidArgument::TooLong)));
}

#[test]
fn uppercase_refuses_non_ascii_text() {
    assert!(matches!(ascii_uppercase_inner("héllo".to_string()), Err(InvalidArgument::NotAscii)));
}

#[test]
fn uppercase_bounds_are_inclusive() {
    assert_eq!(ascii_uppercase_inner("abcde".to_string()).unwrap(), "ABCDE");
    assert_eq!(
        ascii_uppercase_inner("abcdefghijklmno".to_string()).unwrap(),
        "ABCDEFGHIJKLMNO"
    );
    assert!(matches!(ascii_uppercase_inner("abcd".to_string()), Err(InvalidArgument::TooShort)));
    assert!(matches!(
        ascii_uppercase_inner("abcdefghijklmnop".to_string()),
        Err(InvalidArgument::TooLong)
    ));
}

#[test]
fn uppercase_keeps_digits_and_spaces() {
    assert_eq!(ascii_uppercase_inner("ab 12-cd".to_string()).unwrap(), "AB 12-CD");
}

#[test]
fn uppercase_with_application_errors() {
    assert_eq!(ascii_uppercase("hello".to_string()).unwrap(), "HELLO");
    assert!(matches!(
        ascii_uppercase("hi".to_string()),
        Err(MyErrors::InvalidArgument(InvalidArgument::TooShort))
    ));
    assert!(matches!(
        ascii_uppercase("ñandú ñandú".to_string()),
        Err(MyErrors::InvalidArgument(InvalidArgument::NotAscii))
    ));
}

#[test]
fn uppercase_with_wrapped_errors() {
    assert_eq!(ascii_uppercase_classic("hello".to_string()).ok().unwrap(), "HELLO");
    assert!(matches!(
        ascii_uppercase_classic("abcdefghijklmnopqrst".to_string()),
        Err(ServerFnError::WrappedServerError(InvalidArgument::TooLong))
    ));
}

#[test]
fn other_error_never_fails() {
    assert!(other_error().is_ok());
}

#[test]
fn invalid_argument_names() {
    assert_eq!(InvalidArgument::TooShort.name(), "TooShort");
    assert_eq!(InvalidArgument::TooLong.name(), "TooLong");
    assert_eq!(InvalidArgument::NotAscii.name(), "NotAscii");
}

#[test]
fn shouting_upper_cases_ascii_only() {
    assert_eq!(shouting_text("Hi there".to_string()), "HI THERE");
    assert_eq!(rkyv_example("straße".to_string()), "STRAßE");
}

#[test]
fn length_counts_bytes() {
    assert_eq!(length_of_input("hello".to_string()), 5);
    assert_eq!(length_of_input("é".to_string()), 2);
    assert_eq!(length_of_input(String::new()), 0);
}

#[test]
fn why_not_appends() {
    let r = why_not("foo".to_string(), ", but in TOML!!!".to_string());
    assert_eq!(r.original, "foo");
    assert_eq!(r.modified, "foo, but in TOML!!!");
}

#[test]
fn postcard_example_ages_and_adds_hobby() {
    let data = PostcardData {
        name: "Alice".to_string(),
        age: 30,
        hobbies: vec!["reading".to_string(), "hiking".to_string()],
    };
    let r = postcard_example(data);
    assert_eq!(r.name, "Alice");
    assert_eq!(r.age, 31);
    assert_eq!(r.hobbies, vec!["reading", "hiking", "Rust programming"]);
}

#[test]
fn rows_count_successful_adds() {
    let mut store = RowStore::new();
    assert_eq!(store.get_rows(), 0);
    assert_eq!(store.add_row("a".to_string()).ok(), Some(1));
    assert_eq!(store.add_row("b".to_string()).ok(), Some(2));
    assert_eq!(store.add_row("c".to_string()).ok(), Some(3));
    assert_eq!(store.get_rows(), 3);
}

#[test]
fn rows_fault_injection_fails_every_third_call() {
    let mut store = RowStore::with_fault_injection();
    assert_eq!(store.add_row("a".to_string()).ok(), Some(1));
    assert_eq!(store.add_row("b".to_string()).ok(), Some(2));
    let e = store.add_row("c".to_string()).err().unwrap();
    assert_eq!(e.detail, "Oh no! Couldn't add to database!");
    assert_eq!(store.add_row("d".to_string()).ok(), Some(3));
    assert_eq!(store.add_row("e".to_string()).ok(), Some(4));
    assert!(store.add_row("f".to_string()).is_err());
    assert_eq!(store.get_rows(), 4);
}

#[test]
fn rows_never_lose_an_update() {
    let mut store = RowStore::with_fault_injection();
    let mut successes = 0;
    for i in 0..10 {
        if store.add_row(format!("row {i}")).is_ok() {
            successes += 1;
        }
    }
    assert_eq!(successes, 7);
    assert_eq!(store.get_rows(), successes);
}

#[test]
fn file_length_sums_chunks() {
    assert_eq!(file_length(&vec![]), 0);
    assert_eq!(file_length(&vec![10, 20, 5]), 35);
}

#[test]
fn progress_accumulates_per_file() {
    let mut t = ProgressTracker::new();
    assert_eq!(t.total_for("a.txt"), 0);
    assert_eq!(t.add_chunk("a.txt", 100), 100);
    assert_eq!(t.add_chunk("b.txt", 7), 7);
    assert_eq!(t.add_chunk("a.txt", 50), 150);
    assert_eq!(t.total_for("a.txt"), 150);
    assert_eq!(t.total_for("b.txt"), 7);
}
