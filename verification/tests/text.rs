use derive_toolkit::text::{
    chars_of, copy_texts, count_word, followed_by, join_with_separator, split_on_separator, str_eq, str_lt, strip_quotes,
};

fn owned(list: &[&str]) -> Vec<String> {
    list.iter().map(|s| s.to_string()).collect()
}

#[test]
fn equality_is_by_text() {
    assert!(str_eq("each", "each"));
    assert!(str_eq("", ""));
    assert!(!str_eq("each", "eac"));
    assert!(!str_eq("each", "eacH"));
    assert!(str_eq("naïve", "naïve"));
    assert!(!str_eq("naïve", "naive"));
}

#[test]
fn order_is_that_of_strings() {
    for a in ["", "A", "AA", "AB", "B", "a", "Foo::B", "Foo::C", "é", "z", "日本"] {
        for b in ["", "A", "AA", "AB", "B", "a", "Foo::B", "Foo::C", "é", "z", "日本"] {
            assert_eq!(str_lt(a, b), a < b, "{a:?} < {b:?}");
        }
    }
}

#[test]
fn a_prefix_sorts_first() {
    assert!(str_lt("Foo", "Foo::A"));
    assert!(!str_lt("Foo::A", "Foo"));
    assert!(!str_lt("Foo", "Foo"));
}

#[test]
fn split_at_each_separator() {
    assert_eq!(split_on_separator("T::Value"), owned(&["T", "Value"]));
    assert_eq!(split_on_separator("a::b::c"), owned(&["a", "b", "c"]));
    assert_eq!(split_on_separator("T"), owned(&["T"]));
    assert_eq!(split_on_separator(""), owned(&[""]));
}

#[test]
fn split_takes_the_leftmost_separator() {
    assert_eq!(split_on_separator("a:::b"), owned(&["a", ":b"]));
    assert_eq!(split_on_separator("a::::b"), owned(&["a", "", "b"]));
    assert_eq!(split_on_separator("::a"), owned(&["", "a"]));
    assert_eq!(split_on_separator("a::"), owned(&["a", ""]));
    assert_eq!(split_on_separator("a:b"), owned(&["a:b"]));
    assert_eq!(split_on_separator(":"), owned(&[":"]));
}

#[test]
fn split_agrees_with_str_split() {
    for s in ["", ":", "::", ":::", "::::", "a::b", "x:y::z:", "é::ü", "T::Value::Inner"] {
        let expected: Vec<String> = s.split("::").map(|p| p.to_string()).collect();
        assert_eq!(split_on_separator(s), expected, "{s:?}");
    }
}

#[test]
fn join_puts_the_separator_between() {
    assert_eq!(join_with_separator(&owned(&["T", "Value"])), "T::Value");
    assert_eq!(join_with_separator(&owned(&["T"])), "T");
    assert_eq!(join_with_separator(&owned(&[])), "");
    assert_eq!(join_with_separator(&owned(&["", ""])), "::");
}

#[test]
fn join_undoes_split() {
    for s in ["", ":", "::", ":::", "a::b", "x:y::z:", "T::Value::Inner"] {
        assert_eq!(join_with_separator(&split_on_separator(s)), s);
    }
}

#[test]
fn quotes_are_stripped_at_both_ends() {
    assert_eq!(strip_quotes("\"T::Value\""), "T::Value");
    assert_eq!(strip_quotes("T"), "T");
    assert_eq!(strip_quotes("\"\"\"a\"b\"\""), "a\"b");
    assert_eq!(strip_quotes("\"\""), "");
    assert_eq!(strip_quotes("\""), "");
    assert_eq!(strip_quotes(""), "");
    assert_eq!(strip_quotes("\"é\""), "é");
}

#[test]
fn concat_appends() {
    assert_eq!(followed_by("Command", "Builder"), "CommandBuilder");
    assert_eq!(followed_by("", "x"), "x");
}

#[test]
fn texts_are_copied() {
    let texts = owned(&["a", "", "é"]);
    assert_eq!(copy_texts(&texts), texts);
}

#[test]
fn whole_words_are_counted() {
    assert_eq!(count_word("T", "T"), 1);
    assert_eq!(count_word("PhantomData<T>", "T"), 1);
    assert_eq!(count_word("PhantomData < T >", "T"), 1);
    assert_eq!(count_word("HashMap<T::Key, T>", "T"), 2);
    assert_eq!(count_word("(T, T, T)", "T"), 3);
    assert_eq!(count_word("Vec<Item>", "Item"), 1);
    assert_eq!(count_word("T T", "T T"), 1);
}

#[test]
fn parts_of_words_are_not_counted() {
    assert_eq!(count_word("Tree<aT, T2, _T, T_, Té, éT>", "T"), 0);
    assert_eq!(count_word("&'T u8", "T"), 0);
    assert_eq!(count_word("", "T"), 0);
    assert_eq!(count_word("T", ""), 0);
    assert_eq!(count_word("T", "TT"), 0);
    assert_eq!(count_word("Items", "Item"), 0);
}

#[test]
fn chars_are_listed() {
    assert_eq!(chars_of("aé日"), vec!['a', 'é', '日']);
    assert_eq!(chars_of(""), Vec::<char>::new());
}
