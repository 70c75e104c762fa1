use restful_records::record::User;

#[test]
fn renders_all_four_values_in_order() {
    let user = User {
        active: true,
        username: String::from("some@user.com"),
        email: String::from("some@user.com"),
        sign_in_count: 1,
    };
    let expected = "User {\n active: true,\n  username: some@user.com\n  email: some@user.com,\n  sign_in_count: 1,\n }";
    assert_eq!(user.render(), expected);
    let text = user.render();
    let a = text.find("true").unwrap();
    let b = text[a..].find("some@user.com").unwrap() + a;
    let c = text[b + 1..].find("some@user.com").unwrap() + b + 1;
    let d = text[c + 1..].find('1').unwrap() + c + 1;
    assert!(a < b && b < c && c < d);
}

#[test]
fn rendering_modes_are_byte_identical() {
    let user = User {
        active: false,
        username: String::from("alice"),
        email: String::from("alice@example.com"),
        sign_in_count: 42,
    };
    assert_eq!(user.render(), user.render_pretty());
}

#[test]
fn rendering_is_deterministic() {
    let make = || User {
        active: true,
        username: String::from("bob"),
        email: String::from("bob@example.com"),
        sign_in_count: 7,
    };
    assert_eq!(make().render(), make().render());
    assert_eq!(make().render(), make().render_pretty());
}

#[test]
fn renders_false_flag_and_zero_count() {
    let user = User {
        active: false,
        username: String::from("u"),
        email: String::from("e"),
        sign_in_count: 0,
    };
    assert_eq!(user.render(), "User {\n active: false,\n  username: u\n  email: e,\n  sign_in_count: 0,\n }");
}

#[test]
fn renders_largest_count() {
    let user = User {
        active: true,
        username: String::from("u"),
        email: String::from("e"),
        sign_in_count: u64::MAX,
    };
    assert!(user.render().contains("sign_in_count: 18446744073709551615,"));
}
