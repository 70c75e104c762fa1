use restful_records::wire::parse_data;

const BODY: &str = "{\"id\":\"7\",\"name\":\"Apple MacBook Pro 16\",\"data\":{\"year\":2019,\"price\":1849.99,\"CPU model\":\"Intel Core i9\",\"Hard disk size\":\"1 TB\"}}";

#[test]
fn parses_the_example_body() {
    let d = parse_data(BODY).unwrap();
    assert_eq!(d.id, "7");
    assert_eq!(d.name, "Apple MacBook Pro 16");
    assert_eq!(d.data.year, 2019);
    assert_eq!(d.data.price, "1849.99");
    assert_eq!(d.data.cpu, "Intel Core i9");
    assert_eq!(d.data.hard_disk, "1 TB");
}

#[test]
fn members_parse_in_any_order() {
    let body = "{\"data\":{\"Hard disk size\":\"1 TB\",\"year\":2019,\"CPU model\":\"Intel Core i9\",\"price\":1849.99},\"name\":\"Apple MacBook Pro 16\",\"id\":\"7\"}";
    let d = parse_data(body).unwrap();
    assert_eq!(d.id, "7");
    assert_eq!(d.data.cpu, "Intel Core i9");
    assert_eq!(d.data.year, 2019);
}

#[test]
fn whitespace_between_tokens_is_tolerated() {
    let body = " {\n  \"id\" : \"7\" ,\n  \"name\" : \"n\" ,\n  \"data\" : { \"year\" : 2019 , \"price\" : 1849.99 , \"CPU model\" : \"c\" , \"Hard disk size\" : \"h\" }\n}\n";
    let d = parse_data(body).unwrap();
    assert_eq!(d.data.year, 2019);
    assert_eq!(d.data.price, "1849.99");
}

#[test]
fn missing_cpu_model_member_fails() {
    let body = "{\"id\":\"7\",\"name\":\"n\",\"data\":{\"year\":2019,\"price\":1849.99,\"Hard disk size\":\"1 TB\"}}";
    assert!(parse_data(body).is_none());
}

#[test]
fn missing_data_member_fails() {
    let body = "{\"id\":\"7\",\"name\":\"n\"}";
    assert!(parse_data(body).is_none());
}

#[test]
fn missing_id_member_fails() {
    let body = "{\"name\":\"n\",\"data\":{\"year\":2019,\"price\":1,\"CPU model\":\"c\",\"Hard disk size\":\"h\"}}";
    assert!(parse_data(body).is_none());
}

#[test]
fn repeated_member_fails() {
    let body = "{\"id\":\"7\",\"id\":\"8\",\"name\":\"n\",\"data\":{\"year\":2019,\"price\":1,\"CPU model\":\"c\",\"Hard disk size\":\"h\"}}";
    assert!(parse_data(body).is_none());
}

#[test]
fn year_of_the_wrong_type_fails() {
    let body = "{\"id\":\"7\",\"name\":\"n\",\"data\":{\"year\":\"2019\",\"price\":1,\"CPU model\":\"c\",\"Hard disk size\":\"h\"}}";
    assert!(parse_data(body).is_none());
}

#[test]
fn year_with_a_fraction_fails() {
    let body = "{\"id\":\"7\",\"name\":\"n\",\"data\":{\"year\":2019.5,\"price\":1,\"CPU model\":\"c\",\"Hard disk size\":\"h\"}}";
    assert!(parse_data(body).is_none());
}

#[test]
fn year_out_of_range_fails() {
    let body = "{\"id\":\"7\",\"name\":\"n\",\"data\":{\"year\":2147483648,\"price\":1,\"CPU model\":\"c\",\"Hard disk size\":\"h\"}}";
    assert!(parse_data(body).is_none());
}

#[test]
fn extreme_years_parse() {
    let body = "{\"id\":\"7\",\"name\":\"n\",\"data\":{\"year\":-2147483648,\"price\":1,\"CPU model\":\"c\",\"Hard disk size\":\"h\"}}";
    assert_eq!(parse_data(body).unwrap().data.year, i32::MIN);
    let body = "{\"id\":\"7\",\"name\":\"n\",\"data\":{\"year\":2147483647,\"price\":1,\"CPU model\":\"c\",\"Hard disk size\":\"h\"}}";
    assert_eq!(parse_data(body).unwrap().data.year, i32::MAX);
}

#[test]
fn unknown_members_with_any_value_are_ignored() {
    let body = "{\"id\":\"7\",\"color\":\"silver\",\"name\":\"n\",\"data\":{\"year\":2019,\"price\":1849.99,\"weight\":2.1,\"CPU model\":\"c\",\"Hard disk size\":\"h\"}}";
    let d = parse_data(body).unwrap();
    assert_eq!(d.id, "7");
    assert_eq!(d.data.year, 2019);
    let body = r#"{"id":"7","tags":["a",{"b":[true,null]},-1.5e2],"name":"n","ok":false,"data":{"year":2019,"price":1,"extra":{"deep":{"er":[[]]}},"CPU model":"c","Hard disk size":"h"}}"#;
    let d = parse_data(body).unwrap();
    assert_eq!(d.name, "n");
    assert_eq!(d.data.cpu, "c");
}

#[test]
fn malformed_unknown_values_fail() {
    let body = r#"{"id":"7","flag":tru,"name":"n","data":{"year":2019,"price":1,"CPU model":"c","Hard disk size":"h"}}"#;
    assert!(parse_data(body).is_none());
    let body = r#"{"id":"7","tags":["a",],"name":"n","data":{"year":2019,"price":1,"CPU model":"c","Hard disk size":"h"}}"#;
    assert!(parse_data(body).is_none());
}

#[test]
fn empty_body_fails() {
    assert!(parse_data("").is_none());
    assert!(parse_data("   ").is_none());
}

#[test]
fn non_object_body_fails() {
    assert!(parse_data("\"id\"").is_none());
    assert!(parse_data("42").is_none());
}

#[test]
fn empty_object_fails() {
    assert!(parse_data("{}").is_none());
}

#[test]
fn trailing_text_after_the_object_fails() {
    let body = "{\"id\":\"7\",\"name\":\"n\",\"data\":{\"year\":2019,\"price\":1,\"CPU model\":\"c\",\"Hard disk size\":\"h\"}}x";
    assert!(parse_data(body).is_none());
}

#[test]
fn unterminated_string_fails() {
    assert!(parse_data("{\"id\":\"7").is_none());
}

#[test]
fn escape_sequences_are_decoded() {
    let body = r#"{"id":"a\"b","name":"tab\there","data":{"year":2019,"price":1,"CPU model":"line\nbreak","Hard disk size":"back\\slash"}}"#;
    let d = parse_data(body).unwrap();
    assert_eq!(d.id, "a\"b");
    assert_eq!(d.name, "tab\there");
    assert_eq!(d.data.cpu, "line\nbreak");
    assert_eq!(d.data.hard_disk, "back\\slash");
}

#[test]
fn unicode_escapes_are_decoded() {
    let body = r#"{"id":"\u0041\u00e9","name":"\uD834\uDD1E","data":{"year":2019,"price":1,"CPU model":"c","Hard disk size":"h"}}"#;
    let d = parse_data(body).unwrap();
    assert_eq!(d.id, "A\u{e9}");
    assert_eq!(d.name, "\u{1D11E}");
}

#[test]
fn lone_or_misordered_surrogates_fail() {
    let body = r#"{"id":"\uD834","name":"n","data":{"year":2019,"price":1,"CPU model":"c","Hard disk size":"h"}}"#;
    assert!(parse_data(body).is_none());
    let body = r#"{"id":"\uDD1E","name":"n","data":{"year":2019,"price":1,"CPU model":"c","Hard disk size":"h"}}"#;
    assert!(parse_data(body).is_none());
}

#[test]
fn unknown_escapes_fail() {
    let body = r#"{"id":"a\xb","name":"n","data":{"year":2019,"price":1,"CPU model":"c","Hard disk size":"h"}}"#;
    assert!(parse_data(body).is_none());
}

#[test]
fn raw_control_characters_in_strings_fail() {
    let body = "{\"id\":\"a\nb\",\"name\":\"n\",\"data\":{\"year\":2019,\"price\":1,\"CPU model\":\"c\",\"Hard disk size\":\"h\"}}";
    assert!(parse_data(body).is_none());
}

#[test]
fn exponent_numbers_keep_their_text() {
    let body = r#"{"id":"7","name":"n","data":{"year":2019,"price":1.8e3,"CPU model":"c","Hard disk size":"h"}}"#;
    assert_eq!(parse_data(body).unwrap().data.price, "1.8e3");
    let body = r#"{"id":"7","name":"n","data":{"year":2019,"price":-2E+10,"CPU model":"c","Hard disk size":"h"}}"#;
    assert_eq!(parse_data(body).unwrap().data.price, "-2E+10");
}

#[test]
fn leading_zero_numbers_fail() {
    let body = r#"{"id":"7","name":"n","data":{"year":007,"price":1,"CPU model":"c","Hard disk size":"h"}}"#;
    assert!(parse_data(body).is_none());
    let body = r#"{"id":"7","name":"n","data":{"year":2019,"price":01.5,"CPU model":"c","Hard disk size":"h"}}"#;
    assert!(parse_data(body).is_none());
    let body = r#"{"id":"7","name":"n","data":{"year":0,"price":0.5,"CPU model":"c","Hard disk size":"h"}}"#;
    let d = parse_data(body).unwrap();
    assert_eq!(d.data.year, 0);
    assert_eq!(d.data.price, "0.5");
}

#[test]
fn year_with_an_exponent_is_not_an_integer() {
    let body = r#"{"id":"7","name":"n","data":{"year":2019e1,"price":1,"CPU model":"c","Hard disk size":"h"}}"#;
    assert!(parse_data(body).is_none());
}

#[test]
fn malformed_numbers_fail() {
    let body = "{\"id\":\"7\",\"name\":\"n\",\"data\":{\"year\":2019,\"price\":-,\"CPU model\":\"c\",\"Hard disk size\":\"h\"}}";
    assert!(parse_data(body).is_none());
    let body = "{\"id\":\"7\",\"name\":\"n\",\"data\":{\"year\":2019,\"price\":1.,\"CPU model\":\"c\",\"Hard disk size\":\"h\"}}";
    assert!(parse_data(body).is_none());
}

#[test]
fn negative_and_integer_prices_keep_their_text() {
    let body = "{\"id\":\"7\",\"name\":\"n\",\"data\":{\"year\":2019,\"price\":-0.5,\"CPU model\":\"c\",\"Hard disk size\":\"h\"}}";
    assert_eq!(parse_data(body).unwrap().data.price, "-0.5");
    let body = "{\"id\":\"7\",\"name\":\"n\",\"data\":{\"year\":2019,\"price\":1849,\"CPU model\":\"c\",\"Hard disk size\":\"h\"}}";
    assert_eq!(parse_data(body).unwrap().data.price, "1849");
}

#[test]
fn pretty_rendering_lists_every_field() {
    let d = parse_data(BODY).unwrap();
    let expected = "Data {\n    id: \"7\",\n    name: \"Apple MacBook Pro 16\",\n    data: InnerData {\n        year: 2019,\n        price: 1849.99,\n        cpu: \"Intel Core i9\",\n        hard_disk: \"1 TB\",\n    },\n}";
    assert_eq!(d.render_pretty(), expected);
}
