use rowshell::commands::split::{from, output_type, send};
use rowshell::lang::table::{ColumnType, Row};
use rowshell::lang::value::{Value, ValueType};

fn texts(rows: &Vec<Row>) -> Vec<String> {
    rows.iter()
        .map(|row| {
            assert_eq!(row.cells.len(), 1);
            match &row.cells[0] {
                Value::String(s) => s.clone(),
                other => panic!("not a string: {:?}", other),
            }
        })
        .collect()
}

#[test]
fn split_drops_empty_tokens() {
    let rows = from("a,b,,c\n", ",", &None, false);
    assert_eq!(texts(&rows), vec!["a", "b", "c"]);
}

#[test]
fn split_trims_tokens() {
    let rows = from("  x , y  ", ",", &Some(" ".to_string()), false);
    assert_eq!(texts(&rows), vec!["x", "y"]);
}

#[test]
fn split_keeps_empty_tokens_when_allowed() {
    let rows = from("a,b,,c", ",", &None, true);
    assert_eq!(texts(&rows), vec!["a", "b", "", "c"]);
    let only = from("", ",", &None, true);
    assert_eq!(texts(&only), vec![""]);
    let nothing = from("", ",", &None, false);
    assert_eq!(nothing.len(), 0);
}

#[test]
fn split_emits_the_unterminated_last_token() {
    assert_eq!(texts(&from("a;b", ";", &None, false)), vec!["a", "b"]);
    assert_eq!(texts(&from("a;b;", ";", &None, false)), vec!["a", "b"]);
    assert_eq!(texts(&from("a;b;", ";", &None, true)), vec!["a", "b", ""]);
}

#[test]
fn split_on_any_of_several_separators() {
    assert_eq!(texts(&from("a,b;c d", ",; ", &None, false)), vec!["a", "b", "c", "d"]);
    assert_eq!(texts(&from("a,b;c d", "", &None, false)), vec!["a,b;c d"]);
}

#[test]
fn split_keeps_line_ends_inside_tokens() {
    assert_eq!(texts(&from("a,b\nc", ",", &None, false)), vec!["a", "b\nc"]);
    assert_eq!(texts(&from("a,b\nc,d\n", ",", &None, false)), vec!["a", "b\nc", "d"]);
    assert_eq!(texts(&from("a\n\n", ",", &None, false)), vec!["a\n"]);
    assert_eq!(texts(&from("\n", ",", &None, true)), vec![""]);
    assert_eq!(texts(&from("a,\n", ",", &None, true)), vec!["a", ""]);
}

#[test]
fn split_on_line_ends() {
    assert_eq!(texts(&from("a\nb\n", "\n", &None, false)), vec!["a", "b"]);
    assert_eq!(texts(&from("a\nb\n", "\n", &None, true)), vec!["a", "b", ""]);
    assert_eq!(texts(&from("a\nb", "\n", &None, true)), vec!["a", "b"]);
}

#[test]
fn split_trims_only_the_ends() {
    let trim = Some(" _".to_string());
    assert_eq!(texts(&from("_a b_ ,__, c", ",", &trim, false)), vec!["a b", "c"]);
    assert_eq!(texts(&from("_a b_ ,__, c", ",", &trim, true)), vec!["a b", "", "c"]);
    assert_eq!(texts(&from(" a ", ",", &Some(String::new()), false)), vec![" a "]);
}

#[test]
fn split_handles_wide_characters() {
    assert_eq!(texts(&from("é→ü→", "→", &None, false)), vec!["é", "ü"]);
}

#[test]
fn send_adds_one_row_or_none() {
    let mut output: Vec<Row> = Vec::new();
    send(&mut output, &None, false, "abc");
    send(&mut output, &None, false, "");
    send(&mut output, &Some("-".to_string()), false, "--");
    send(&mut output, &Some("-".to_string()), true, "--");
    send(&mut output, &Some("-".to_string()), false, "-x-y-");
    assert_eq!(texts(&output), vec!["abc", "", "x-y"]);
}

#[test]
fn split_output_is_one_string_column() {
    assert_eq!(output_type(), vec![ColumnType::new("token", ValueType::String)]);
}

#[test]
fn untrimmed_tokens_give_the_text_back() {
    let text = ",a,,b c;d,";
    let tokens = texts(&from(text, ",;", &None, true));
    assert_eq!(tokens, vec!["", "a", "", "b c", "d", ""]);
    let separators: Vec<char> = text.chars().filter(|c| ",;".contains(*c)).collect();
    assert_eq!(tokens.len(), separators.len() + 1);
    let mut written = tokens[0].clone();
    for (k, c) in separators.iter().enumerate() {
        written.push(*c);
        written.push_str(&tokens[k + 1]);
    }
    assert_eq!(written, text);
}

#[test]
fn tokens_are_clean() {
    let trim = Some(" \t".to_string());
    for token in texts(&from(" a ,\t, b\tc ;; d", ",;", &trim, false)) {
        assert!(!token.is_empty());
        assert!(!token.contains(',') && !token.contains(';'));
        assert!(!token.starts_with(' ') && !token.starts_with('\t'));
        assert!(!token.ends_with(' ') && !token.ends_with('\t'));
    }
    assert_eq!(texts(&from(" a ,\t, b\tc ;; d", ",;", &trim, false)), vec!["a", "b\tc", "d"]);
}
