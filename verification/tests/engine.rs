use stemplate::directive::{classify, multi_given, Directive, Fallback};
use stemplate::scanner::{scan, scan_marks, Mark, Placeholder};
use stemplate::text::{chars_of, contains, find, is_whitespace, split, string_of, trim};
use stemplate::{Host, Template, Variables};

fn text(s: &str) -> Vec<char> {
    chars_of(s)
}

#[test]
fn plain_text_renders_to_itself_trimmed() {
    let s = Template::new("  no placeholders here }  ").render(&Variables::new(), &Host::new());
    assert_eq!(s, "no placeholders here }");
}

#[test]
fn hello_name() {
    let mut args = Variables::new();
    args.insert("name", "Charles");
    let s = Template::new("Hello, ${name}").render(&args, &Host::new());
    assert_eq!(s, "Hello, Charles");
}

#[test]
fn default_when_unbound_and_when_bound() {
    let t = Template::new("${name:-Henry}");
    assert_eq!(t.render(&Variables::new(), &Host::new()), "Henry");
    let mut args = Variables::new();
    args.insert("name", "Charles");
    assert_eq!(t.render(&args, &Host::new()), "Charles");
}

#[test]
fn default_collapses_two_levels() {
    let mut args = Variables::new();
    args.insert("name", "${king:-Big Man}");
    let s = Template::new("${name:-Henry}").render(&args, &Host::new());
    assert_eq!(s, "Big Man");
}

#[test]
fn default_takes_the_text_up_to_the_next_separator() {
    let s = Template::new("${a:-one:-two}").render(&Variables::new(), &Host::new());
    assert_eq!(s, "one");
}

#[test]
fn default_falls_back_on_empty_value() {
    let mut args = Variables::new();
    args.insert("name", "");
    let t = Template::new("${name:=Henry}");
    assert_eq!(t.render(&args, &Host::new()), "Henry");
    let mut host = Host::new();
    host.set_env("name", "Edward");
    assert_eq!(t.render(&args, &host), "Edward");
}

#[test]
fn plain_falls_back_to_environment() {
    let mut host = Host::new();
    host.set_env("HOME", "  /root ");
    let t = Template::new("home=${HOME}");
    assert_eq!(t.render(&Variables::new(), &host), "home=/root");
    let mut args = Variables::new();
    args.insert("HOME", "/tmp");
    assert_eq!(t.render(&args, &host), "home=/tmp");
}

#[test]
fn cycle_advances_and_wraps() {
    let mut args = Variables::new();
    args.insert("name", "Charles|Harry");
    let t = Template::new("${#name}. ${#name}.");
    assert_eq!(t.render(&args, &Host::new()), "Charles. Harry.");
    assert_eq!(t.render(&args, &Host::new()), "Charles. Harry.");
    let s = Template::new("${#name}${#name}${#name}").render(&args, &Host::new());
    assert_eq!(s, "CharlesHarryCharles");
}

#[test]
fn cycle_is_not_read_from_environment() {
    let mut host = Host::new();
    host.set_env("name", "a|b");
    let s = Template::new("[${#name}]").render(&Variables::new(), &host);
    assert_eq!(s, "[]");
}

#[test]
fn cycle_goes_on_in_the_expanded_output() {
    let mut args = Variables::new();
    args.insert("n", "a|b");
    args.insert("x", "${#n}");
    let s = Template::new("${#n} ${x}").render(&args, &Host::new());
    assert_eq!(s, "a b");
}

#[test]
fn literal_copy_is_not_expanded() {
    let mut args = Variables::new();
    args.insert("code", " if ${x} then ${y:-z} ");
    args.insert("x", "X");
    let s = Template::new("${=code}").render(&args, &Host::new());
    assert_eq!(s, " if ${x} then ${y:-z} ");
}

#[test]
fn literal_copy_of_unbound_name_gives_nothing() {
    let mut args = Variables::new();
    args.insert("x", "${y}");
    args.insert("y", "Y");
    let s = Template::new("${=code}${x}").render(&args, &Host::new());
    assert_eq!(s, "Y");
}

#[test]
fn self_reference_stops_at_the_depth_limit() {
    let mut args = Variables::new();
    args.insert("x", "${x}");
    let s = Template::new("a ${x} b").render(&args, &Host::new());
    assert_eq!(s, "a ${x} b");
}

#[test]
fn growing_self_reference_stops_at_the_depth_limit() {
    let mut args = Variables::new();
    args.insert("x", "<${x}>");
    let s = Template::new("${x}").render(&args, &Host::new());
    let mut expected = String::new();
    for _ in 0..17 {
        expected.push('<');
    }
    expected.push_str("${x}");
    for _ in 0..17 {
        expected.push('>');
    }
    assert_eq!(s, expected);
}

#[test]
fn self_referring_body_stops_at_the_depth_limit() {
    let mut args = Variables::new();
    args.insert("x", "${*x}");
    let s = Template::new("${*x}").render(&args, &Host::new());
    assert_eq!(s, "${*x}");
}

#[test]
fn self_including_file_stops_at_the_depth_limit() {
    let mut host = Host::new();
    host.add_file("a.inc", "again ${!a.inc}");
    let s = Template::new("${!a.inc}").render(&Variables::new(), &host);
    assert!(s.ends_with("${!a.inc}"));
    assert!(s.starts_with("again again"));
}

#[test]
fn unterminated_placeholder_is_literal() {
    let mut args = Variables::new();
    args.insert("name", "Charles");
    let s = Template::new("${name} and ${name").render(&args, &Host::new());
    assert_eq!(s, "Charles and ${name");
}

#[test]
fn present_file_is_trimmed_and_expanded() {
    let mut host = Host::new();
    host.add_file("plain.inc", "\n  just text \n");
    host.add_file("nested.inc", " ${greeting}, ${name:-you} \n");
    let mut args = Variables::new();
    args.insert("greeting", "Hello");
    let t = Template::new("[${!plain.inc}] [${!nested.inc}]");
    assert_eq!(t.render(&args, &host), "[just text] [Hello, you]");
}

#[test]
fn absent_file_gives_nothing() {
    let mut host = Host::new();
    host.add_unreadable("gone.inc");
    let t = Template::new("[${!gone.inc}][${!unknown.inc}]");
    assert_eq!(t.render(&Variables::new(), &host), "[][]");
}

#[test]
fn pending_include_names_each_unknown_path_in_turn() {
    let t = Template::new("${!a.inc} ${!b.inc}");
    let args = Variables::new();
    let mut host = Host::new();
    assert_eq!(t.pending_include(&args, &host), Some("a.inc".to_string()));
    host.add_file("a.inc", "A ${!c.inc}");
    assert_eq!(t.pending_include(&args, &host), Some("c.inc".to_string()));
    host.add_unreadable("c.inc");
    assert_eq!(t.pending_include(&args, &host), Some("b.inc".to_string()));
    host.add_file("b.inc", "B");
    assert_eq!(t.pending_include(&args, &host), None);
    assert_eq!(t.render(&args, &host), "A B");
}

#[test]
fn key_that_does_not_end_in_inc_is_a_variable() {
    let t = Template::new("${!/etc/passwd}");
    assert_eq!(t.pending_include(&Variables::new(), &Host::new()), None);
    let mut args = Variables::new();
    args.insert("!/etc/passwd", "bound");
    assert_eq!(t.render(&args, &Host::new()), "bound");
}

#[test]
fn conditional_equals() {
    let mut args = Variables::new();
    args.insert("value", "text");
    let host = Host::new();
    assert_eq!(Template::new("[${?value=text:- yes }]").render(&args, &host), "[yes]");
    assert_eq!(Template::new("[${?value=text:=yes}]").render(&args, &host), "[yes]");
    assert_eq!(Template::new("[${?value=other:-yes}]").render(&args, &host), "[]");
    assert_eq!(Template::new("[${?value= text:-yes}]").render(&args, &host), "[]");
    assert_eq!(Template::new("[${?missing=text:-yes}]").render(&args, &host), "[]");
    assert_eq!(Template::new("[${?value=text:-a:-b}]").render(&args, &host), "[]");
    assert_eq!(Template::new("[${?value=te=xt:-yes}]").render(&args, &host), "[]");
}

#[test]
fn multi_value_joins_with_the_given_character() {
    let mut args = Variables::new();
    args.insert("dog", "woofers|rex");
    args.insert("cat", "kitty|moggi");
    args.insert("pets", "${dog} and ${cat}");
    let s = Template::new("${*|pets}").render(&args, &Host::new());
    assert_eq!(s, "woofers and kitty|rex and moggi");
}

#[test]
fn multi_value_takes_the_shortest_list_and_trims_elements() {
    let mut args = Variables::new();
    args.insert("a", " 1 | 2 | 3 ");
    args.insert("b", "x|y");
    args.insert("unused", "p|q|r|s");
    args.insert("row", "${a}${b}");
    let s = Template::new("${*,row}").render(&args, &Host::new());
    assert_eq!(s, "1x,2y");
}

#[test]
fn multi_value_of_unbound_name_gives_nothing() {
    let s = Template::new("[${*,row}]").render(&Variables::new(), &Host::new());
    assert_eq!(s, "[]");
}

#[test]
fn value_list_after_multi_value_is_left_out() {
    let mut args = Variables::new();
    args.insert("dog", "woofers|rex");
    args.insert("pets", "${dog}");
    let host = Host::new();
    assert_eq!(Template::new("${dog};${*,pets}").render(&args, &host), "woofers|rex;woofers,rex");
    assert_eq!(Template::new("${*,pets};${dog}.").render(&args, &host), "woofers,rex;.");
}

#[test]
fn nested_multi_values_multiply() {
    let mut args = Variables::new();
    args.insert("x", "1|2");
    args.insert("y", "a|b|c");
    args.insert("inner", "${x}${yy}");
    args.insert("outer", "${*,inner}");
    args.insert("yy", "a|b|c");
    args.insert("top", "${yy}:${*+outer}");
    let s = Template::new("${*;top}").render(&args, &Host::new());
    assert_eq!(s, "a:1a,2a;b:1b,2b;c:1c,2c");
}

#[test]
fn other_delimiters() {
    let mut args = Variables::new();
    args.insert("name", "Fred");
    let s = Template::new_delimit("My name is {%name%}", "{%", "%}").render(&args, &Host::new());
    assert_eq!(s, "My name is Fred");
}

#[test]
fn equal_delimiters_never_close() {
    let mut args = Variables::new();
    args.insert("name", "Fred");
    let s = Template::new_delimit("My name is %name%", "%", "%").render(&args, &Host::new());
    assert_eq!(s, "My name is %name%");
}

#[test]
fn empty_delimiters_leave_the_text_as_it_is() {
    let args = Variables::new();
    assert_eq!(Template::new_delimit(" a ${b} ", "", "}").render(&args, &Host::new()), "a ${b}");
    assert_eq!(Template::new_delimit(" a ${b} ", "${", "").render(&args, &Host::new()), "a ${b}");
}

#[test]
fn render_strings_binds_pairs() {
    let vars = vec![
        ("first".to_string(), "Boris".to_string()),
        ("fullname".to_string(), "${first:=Fred} ${last:=Bloggs}".to_string()),
        ("first".to_string(), "Doris".to_string()),
    ];
    let s = Template::new("${fullname}").render_strings(&vars, &Host::new());
    assert_eq!(s, "Doris Bloggs");
}

#[test]
fn variables_lookup() {
    let mut args = Variables::new();
    args.insert("a", "1");
    args.insert("b", "2");
    args.insert("a", "3");
    assert_eq!(args.len(), 2);
    assert_eq!(args.lookup("a"), Some("3".to_string()));
    assert_eq!(args.lookup("b"), Some("2".to_string()));
    assert_eq!(args.lookup("c"), None);
}

#[test]
fn scan_finds_placeholders_in_order() {
    let found = Template::new("a ${b} c").placeholders();
    assert_eq!(
        found,
        vec![
            Placeholder { start: 2, key_start: 4, key_end: 5, end: 6 },
            Placeholder { start: 6, key_start: 6, key_end: 6, end: 6 },
        ]
    );
}

#[test]
fn scan_matches_nested_delimiters() {
    let found = scan("${a:-${b}} ${c", "${", "}");
    assert_eq!(found, vec![Placeholder { start: 0, key_start: 2, key_end: 9, end: 10 }]);
    let found = scan("x ${{a}} {b}", "${{", "}}");
    assert_eq!(
        found,
        vec![
            Placeholder { start: 2, key_start: 5, key_end: 6, end: 8 },
            Placeholder { start: 8, key_start: 8, key_end: 8, end: 8 },
        ]
    );
}

#[test]
fn scan_of_empty_text_and_of_plain_text() {
    assert_eq!(scan("", "${", "}"), vec![]);
    assert_eq!(
        scan("abc", "${", "}"),
        vec![Placeholder { start: 0, key_start: 0, key_end: 0, end: 0 }]
    );
}

#[test]
fn scan_with_overlapping_delimiters() {
    let found = scan("ab", "ab", "b");
    assert_eq!(
        found,
        vec![
            Placeholder { start: 0, key_start: 1, key_end: 1, end: 2 },
            Placeholder { start: 2, key_start: 2, key_end: 2, end: 2 },
        ]
    );
}

#[test]
fn classify_each_form() {
    assert!(matches!(classify(&text("name")), Directive::Plain { name } if name == text("name")));
    assert!(matches!(
        classify(&text("name:-Henry")),
        Directive::DefaultOr { name, fallback, mode: Fallback::IfMissingOrEmpty }
            if name == text("name") && fallback == text("Henry")
    ));
    assert!(matches!(
        classify(&text("name:=Henry")),
        Directive::DefaultOr { name, fallback, mode: Fallback::IfMissingOnly }
            if name == text("name") && fallback == text("Henry")
    ));
    assert!(matches!(
        classify(&text("!test.inc")),
        Directive::Include { path } if path == text("test.inc")
    ));
    assert!(matches!(classify(&text("!test")), Directive::Plain { name } if name == text("!test")));
    assert!(matches!(
        classify(&text("?value=text:-then")),
        Directive::ConditionalEquals { name, expected, then_text }
            if name == text("value") && expected == text("text") && then_text == text("then")
    ));
    assert!(matches!(classify(&text("?value=text:-a:-b")), Directive::Empty));
    assert!(matches!(
        classify(&text("?value=text")),
        Directive::Plain { name } if name == text("?value=text")
    ));
    assert!(matches!(
        classify(&text("*pets")),
        Directive::MultiValue { inner, join: '\n' } if inner == text("pets")
    ));
    assert!(matches!(
        classify(&text("*|pets")),
        Directive::MultiValue { inner, join: '|' } if inner == text("pets")
    ));
    assert!(matches!(
        classify(&text("*")),
        Directive::MultiValue { inner, join: '\n' } if inner == text("")
    ));
    assert!(matches!(
        classify(&text("=code")),
        Directive::LiteralCopy { name } if name == text("code")
    ));
    assert!(matches!(classify(&text("#name")), Directive::CycleNext { name } if name == text("name")));
    assert!(matches!(classify(&text("")), Directive::Plain { name } if name == text("")));
}

#[test]
fn text_functions() {
    assert_eq!(string_of(&trim(&text(" \t a b \u{3000}\n"))), "a b");
    assert_eq!(string_of(&trim(&text(" \n "))), "");
    assert!(is_whitespace('\u{85}'));
    assert!(!is_whitespace('\u{200B}'));
    assert_eq!(find(&text("abcabc"), &text("bc"), 0), Some(1));
    assert_eq!(find(&text("abcabc"), &text("bc"), 2), Some(4));
    assert_eq!(find(&text("abcabc"), &text("bc"), 5), None);
    assert_eq!(find(&text("abc"), &text(""), 3), Some(3));
    assert!(contains(&text("abc"), &text("c")));
    assert!(!contains(&text("abc"), &text("cb")));
    let parts: Vec<String> = split(&text("a|b||c|"), &text("|")).iter().map(string_of).collect();
    assert_eq!(parts, vec!["a", "b", "", "c", ""]);
    let parts: Vec<String> = split(&text("aaa"), &text("aa")).iter().map(string_of).collect();
    assert_eq!(parts, vec!["", "a"]);
}

#[test]
fn fallback_is_written_as_it_stands_and_values_are_trimmed() {
    let t = Template::new("[${name:- Henry }]");
    assert_eq!(t.render(&Variables::new(), &Host::new()), "[ Henry ]");
    let mut args = Variables::new();
    args.insert("name", " Charles ");
    assert_eq!(t.render(&args, &Host::new()), "[Charles]");
}

#[test]
fn multi_given_takes_the_decision_as_an_argument() {
    assert!(matches!(
        multi_given(&text("pets"), true),
        Directive::MultiValue { inner, join: '\n' } if inner == text("pets")
    ));
    assert!(matches!(
        multi_given(&text("pets"), false),
        Directive::MultiValue { inner, join: 'p' } if inner == text("ets")
    ));
    assert!(matches!(
        multi_given(&text(""), false),
        Directive::MultiValue { inner, join: '\n' } if inner == text("")
    ));
}

#[test]
fn multi_value_with_a_letter_from_another_script() {
    let mut args = Variables::new();
    args.insert("имя", "a|b");
    args.insert("тело", "<${имя}>");
    let s = Template::new("${*тело}").render(&args, &Host::new());
    assert_eq!(s, "<a>\n<b>");
}

#[test]
fn placeholders_are_byte_spans() {
    let found = Template::new("${\u{e9}}").placeholders();
    assert_eq!(
        found,
        vec![
            Placeholder { start: 0, key_start: 2, key_end: 4, end: 5 },
            Placeholder { start: 5, key_start: 5, key_end: 5, end: 5 },
        ]
    );
}

#[test]
fn byte_spans_count_from_the_trimmed_source() {
    let found = Template::new(" \u{3000}\u{e9}${x}  ").placeholders();
    assert_eq!(
        found,
        vec![
            Placeholder { start: 2, key_start: 4, key_end: 5, end: 6 },
            Placeholder { start: 6, key_start: 6, key_end: 6, end: 6 },
        ]
    );
}

#[test]
fn byte_spans_cut_the_key_out_of_the_text() {
    let source = "\u{e9} ${\u{fc}:-\u{2603}} \u{1F600}${k}\u{1F600}";
    let found = scan(source, "${", "}");
    assert_eq!(
        found,
        vec![
            Placeholder { start: 3, key_start: 5, key_end: 12, end: 13 },
            Placeholder { start: 18, key_start: 20, key_end: 21, end: 22 },
            Placeholder { start: 22, key_start: 22, key_end: 22, end: 22 },
        ]
    );
    assert_eq!(&source[found[0].start..found[0].end], "${\u{fc}:-\u{2603}}");
    assert_eq!(&source[found[0].key_start..found[0].key_end], "\u{fc}:-\u{2603}");
    assert_eq!(&source[found[1].key_start..found[1].key_end], "k");
    assert_eq!(&source[found[2].start..], "\u{1F600}");
}

#[test]
fn byte_spans_with_delimiters_of_several_bytes() {
    let source = "a \u{ab}k\u{e9}y\u{bb} b";
    let found = scan(source, "\u{ab}", "\u{bb}");
    assert_eq!(
        found,
        vec![
            Placeholder { start: 2, key_start: 4, key_end: 8, end: 10 },
            Placeholder { start: 10, key_start: 10, key_end: 10, end: 10 },
        ]
    );
    assert_eq!(&source[found[0].key_start..found[0].key_end], "k\u{e9}y");
}

#[test]
fn marks_count_characters() {
    let found = scan_marks(&text("\u{e9} ${\u{fc}} x"), &text("${"), &text("}"));
    assert_eq!(
        found,
        vec![
            Mark { start: 2, key_start: 4, key_end: 5, end: 6 },
            Mark { start: 6, key_start: 6, key_end: 6, end: 6 },
        ]
    );
}

#[test]
fn text_that_is_not_ascii_renders() {
    let mut args = Variables::new();
    args.insert("\u{e9}t\u{e9}", "\u{2603}");
    let s = Template::new("\u{1F600} ${\u{e9}t\u{e9}} \u{fc}").render(&args, &Host::new());
    assert_eq!(s, "\u{1F600} \u{2603} \u{fc}");
}

#[test]
fn nested_defaults_with_one_value_bound() {
    let mut args = Variables::new();
    args.insert("first", "Doris");
    args.insert("fullname", "${first:=Fred} ${last:=Bloggs}");
    let s = Template::new("${fullname}").render(&args, &Host::new());
    assert_eq!(s, "Doris Bloggs");
}
