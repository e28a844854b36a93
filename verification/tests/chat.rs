use mc_transfer_gateway::protocol::legacy_text_to_json;

fn json(text: &str) -> String {
    legacy_text_to_json(text).to_string()
}

#[test]
fn plain_text_is_one_part() {
    assert_eq!(json("hello"), r#"{"extra":[{"text":"hello"}],"text":""}"#);
    assert_eq!(json(""), r#"{"text":""}"#);
}

#[test]
fn a_color_starts_a_new_part_without_formats() {
    assert_eq!(
        json("&lbold&aGreen"),
        r#"{"extra":[{"bold":true,"text":"bold"},{"color":"green","text":"Green"}],"text":""}"#
    );
    assert_eq!(
        json("§Cred"),
        r#"{"extra":[{"color":"red","text":"red"}],"text":""}"#
    );
}

#[test]
fn formats_add_up_until_they_are_reset() {
    assert_eq!(
        json("&a&l&n&o&m&kx&ry"),
        concat_parts(&[
            r##"{"bold":true,"color":"green","italic":true,"obfuscated":true,"strikethrough":true,"text":"x","underlined":true}"##,
            r##"{"text":"y"}"##,
        ])
    );
}

fn concat_parts(parts: &[&str]) -> String {
    format!("{{\"extra\":[{}],\"text\":\"\"}}", parts.join(","))
}

#[test]
fn hexadecimal_colors_come_in_two_forms() {
    assert_eq!(
        json("&#12aBefx"),
        concat_parts(&[r##"{"color":"#12aBef","text":"x"}"##])
    );
    assert_eq!(
        json("&x&1&2&a&b&e&fx"),
        concat_parts(&[r##"{"color":"#12abef","text":"x"}"##])
    );
}

#[test]
fn marks_that_mean_nothing_stay() {
    assert_eq!(json("a & b"), concat_parts(&[r#"{"text":"a & b"}"#]));
    assert_eq!(json("&z&"), concat_parts(&[r#"{"text":"&z&"}"#]));
    assert_eq!(json("&#12"), concat_parts(&[r##"{"text":"&#12"}"##]));
}
