use ownership_and_structs::ownership::{
    calculate_length_borrow, calculate_length_move, change, dangling_ref, function_call,
    gives_ownership, no_dangle, takes_and_gives_back,
};

#[test]
fn function_call_hands_on_a_string_and_a_number() {
    let (s, x) = function_call();
    assert_eq!(s, "hello");
    assert_eq!(x, 5);
}

#[test]
fn gives_ownership_gives_hello() {
    assert_eq!(gives_ownership(), "hello");
}

#[test]
fn each_call_gives_a_string_of_its_own() {
    let mut first = gives_ownership();
    let second = gives_ownership();
    change(&mut first);
    assert_eq!(first, "hello, world");
    assert_eq!(second, "hello");
}

#[test]
fn takes_and_gives_back_the_same_string() {
    assert_eq!(takes_and_gives_back(String::from("hello")), "hello");
    assert_eq!(takes_and_gives_back(String::new()), "");
    assert_eq!(takes_and_gives_back(String::from("gr\u{fc}\u{df} dich")), "gr\u{fc}\u{df} dich");
}

#[test]
fn calculate_length_move_gives_the_string_back_with_its_length() {
    let (s, len) = calculate_length_move(String::from("hello"));
    assert_eq!(s, "hello");
    assert_eq!(len, 5);
    let (empty, none) = calculate_length_move(String::new());
    assert_eq!(empty, "");
    assert_eq!(none, 0);
}

#[test]
fn calculate_length_borrow_leaves_the_string_with_its_owner() {
    let s = String::from("hello");
    assert_eq!(calculate_length_borrow(&s), 5);
    assert_eq!(calculate_length_borrow(&s), 5);
    assert_eq!(s, "hello");
    assert_eq!(calculate_length_borrow(&String::new()), 0);
}

#[test]
fn lengths_are_counted_in_bytes() {
    assert_eq!(calculate_length_borrow(&String::from("\u{e9}")), 2);
    assert_eq!(calculate_length_borrow(&String::from("\u{20ac}")), 3);
    assert_eq!(calculate_length_borrow(&String::from("\u{1f600}")), 4);
    let (s, len) = calculate_length_move(String::from("h\u{e9}llo"));
    assert_eq!(s, "h\u{e9}llo");
    assert_eq!(len, 6);
}

#[test]
fn both_ways_of_measuring_agree() {
    let s = String::from("hello, world");
    let by_borrow = calculate_length_borrow(&s);
    let (s, by_move) = calculate_length_move(s);
    assert_eq!(by_borrow, 12);
    assert_eq!(by_move, 12);
    assert_eq!(s, "hello, world");
}

#[test]
fn change_appends_world() {
    let mut s = String::from("hello");
    change(&mut s);
    assert_eq!(s, "hello, world");
}

#[test]
fn change_appends_each_time_it_is_called() {
    let mut s = String::new();
    change(&mut s);
    assert_eq!(s, ", world");
    change(&mut s);
    assert_eq!(s, ", world, world");
    assert_eq!(calculate_length_borrow(&s), 14);
}

#[test]
fn no_dangle_moves_hello_out() {
    assert_eq!(no_dangle(), "hello");
}

#[test]
fn dangling_ref_returns() {
    dangling_ref();
    assert_eq!(no_dangle(), "hello");
}
