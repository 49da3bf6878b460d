use krillin_rs::text::{
    chars_of, find_exec, is_u32_text_exec, join_exec, replace_all_exec, split_lines, string_of,
    trim_chars,
};

fn v(s: &str) -> Vec<char> {
    chars_of(s)
}

fn s(v: &Vec<char>) -> String {
    string_of(v)
}

#[test]
fn lines_like_std() {
    for text in ["", "a", "a\n", "a\nb", "a\r\nb\r\n", "\n\n", "x\r", "a\n\nb\n"] {
        let ours: Vec<String> = split_lines(&v(text)).iter().map(s).collect();
        let std: Vec<String> = text.lines().map(String::from).collect();
        assert_eq!(ours, std, "lines of {:?}", text);
    }
}

#[test]
fn trim_like_std() {
    for text in ["", "  ", " a ", "\u{3000}b\t\n", "c\u{a0}", "\r\n x y \r\n"] {
        assert_eq!(s(&trim_chars(&v(text))), text.trim());
    }
}

#[test]
fn u32_like_std() {
    for text in ["0", "42", "+7", "+", "-1", "", "4294967295", "4294967296", "12a", "00012"] {
        assert_eq!(is_u32_text_exec(&v(text)), text.parse::<u32>().is_ok(), "{:?}", text);
    }
}

#[test]
fn find_and_replace_like_std() {
    for (hay, pat) in [("a-->b", "-->"), ("--->", "-->"), ("abc", "x"), ("", "-"), ("aaa", "aa")] {
        assert_eq!(find_exec(&v(hay), &v(pat)), hay.find(pat), "{:?} {:?}", hay, pat);
        assert_eq!(s(&replace_all_exec(&v(hay), &v(pat), &v("_"))), hay.replace(pat, "_"));
    }
}

#[test]
fn join_pieces() {
    let pieces = vec![v("a"), v("b"), v("c")];
    assert_eq!(s(&join_exec(&pieces, &v(", "))), "a, b, c");
    assert_eq!(s(&join_exec(&vec![], &v(", "))), "");
}
