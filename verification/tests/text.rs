use concurrentes::text::{lines_of, split_on};
use std::io::BufRead;

#[test]
fn fields_of_a_line() {
    assert_eq!(split_on("a,b,c", ','), vec!["a", "b", "c"]);
    assert_eq!(split_on("", ','), vec![""]);
    assert_eq!(split_on(",", ','), vec!["", ""]);
    assert_eq!(split_on("a,", ','), vec!["a", ""]);
    assert_eq!(split_on(",a", ','), vec!["", "a"]);
    assert_eq!(split_on("a,,b", ','), vec!["a", "", "b"]);
    assert_eq!(split_on("no comma", ','), vec!["no comma"]);
    assert_eq!(split_on("ñ,ü", ','), vec!["ñ", "ü"]);
}

#[test]
fn fields_agree_with_std() {
    for text in ["", ",", ",,", "a", "a,b", "a,b,", ",a,,b,", "1,manzana,2,3", "día,noche"] {
        let expected: Vec<&str> = text.split(',').collect();
        assert_eq!(split_on(text, ','), expected, "{:?}", text);
        assert_eq!(split_on(text, ',').join(","), text);
    }
}

#[test]
fn lines_of_a_text() {
    assert_eq!(lines_of(""), Vec::<&str>::new());
    assert_eq!(lines_of("a"), vec!["a"]);
    assert_eq!(lines_of("a\n"), vec!["a"]);
    assert_eq!(lines_of("a\nb"), vec!["a", "b"]);
    assert_eq!(lines_of("a\nb\n"), vec!["a", "b"]);
    assert_eq!(lines_of("\n"), vec![""]);
    assert_eq!(lines_of("\n\n"), vec!["", ""]);
    assert_eq!(lines_of("a\n\nb"), vec!["a", "", "b"]);
    assert_eq!(lines_of("a\r\nb\r\n"), vec!["a", "b"]);
    assert_eq!(lines_of("a\r\nb\r"), vec!["a", "b\r"]);
    assert_eq!(lines_of("a\r"), vec!["a\r"]);
    assert_eq!(lines_of("a\r\r\n"), vec!["a\r"]);
    assert_eq!(lines_of("\r\n"), vec![""]);
}

#[test]
fn lines_agree_with_std() {
    for text in ["", "a", "a\n", "\n", "\n\n", "a\r\n", "a\r", "a\nb\r\n\r\nc", "x\r\r\n", "\r", "tienda,localhost:1,3\n---\nA,10\n"] {
        let expected: Vec<String> = text.as_bytes().lines().map(|l| l.unwrap()).collect();
        assert_eq!(lines_of(text), expected, "{:?}", text);
    }
}
