use m4::engine::{MacroError, M4};
use m4::expand::expand;

fn run(input: &str) -> String {
    let mut m = M4::new();
    assert!(m.write(input).is_ok());
    m.output()
}

fn chars(s: &str) -> Vec<char> {
    s.chars().collect()
}

fn text(v: &[char]) -> String {
    v.iter().collect()
}

#[test]
fn definition_then_zero_argument_use() {
    assert_eq!(run("define(`foo', `Hello world.')\nfoo\n"), "\nHello world.\n");
}

#[test]
fn positional_swap() {
    assert_eq!(run("define(`exch', `$2, $1')\nexch(arg1, arg2)\n"), "\narg2, arg1\n");
}

#[test]
fn nested_call_as_argument() {
    let out = run("define(`inner', `X')define(`outer', `[$1]')outer(inner)\n");
    assert_eq!(out, "[X]\n");
    assert!(!out.contains("inner"));
}

#[test]
fn quoting_suppresses_expansion() {
    assert_eq!(run("define(`foo', `Hello world.')`foo'\n"), "foo\n");
}

#[test]
fn nested_quotes_are_kept_inside() {
    assert_eq!(run("``a' b'\n"), "`a' b\n");
}

#[test]
fn balanced_parentheses_stay_in_one_argument() {
    assert_eq!(run("define(`m', `<$1>')m((a,b))\n"), "<(a,b)>\n");
}

#[test]
fn leading_whitespace_after_separators_is_dropped() {
    assert_eq!(run("define(`m', `$1|$2')m(a,b)\n"), "a|b\n");
    assert_eq!(run("define(`m', `$1|$2')m( a,  b)\n"), "a|b\n");
}

#[test]
fn trailing_whitespace_before_separators_is_kept() {
    assert_eq!(run("define(`m', `$1|$2')m( a , b )\n"), "a |b \n");
}

#[test]
fn redefinition_keeps_the_latest_template() {
    let mut m = M4::new();
    assert!(m.write("define(`foo', `one')define(`foo', `two')foo\n").is_ok());
    assert_eq!(m.output(), "two\n");
    assert_eq!(m.definition("foo"), Some("two".to_string()));
    assert_eq!(m.definition("bar"), None);
}

#[test]
fn earlier_expansion_is_unaffected_by_redefinition() {
    let mut m = M4::new();
    assert!(m.write("define(`foo', `one')foo define(`foo', `two')foo\n").is_ok());
    assert_eq!(m.output(), "one two\n");
}

#[test]
fn first_sample_program() {
    let input = "\ndefine(`foo', `Hello world.')\nfoo\n";
    assert_eq!(run(input), "\n\nHello world.\n");
}

#[test]
fn second_sample_program() {
    let input = "\ndefine(`exch', `$2, $1')\nexch(arg1, arg2)\n";
    assert_eq!(run(input), "\n\narg2, arg1\n");
}

#[test]
fn input_split_across_chunks() {
    let mut m = M4::new();
    assert!(m.write("def").is_ok());
    assert!(m.write("ine(`x', `y')x").is_ok());
    assert_eq!(m.output(), "");
    assert!(m.write("\n").is_ok());
    assert_eq!(m.output(), "y\n");
}

#[test]
fn finish_flushes_a_trailing_name() {
    let mut m = M4::new();
    assert!(m.write("define(`foo', `Hello')foo").is_ok());
    assert_eq!(m.output(), "");
    assert!(m.finish().is_ok());
    assert_eq!(m.output(), "Hello");
}

#[test]
fn take_output_clears_the_buffer() {
    let mut m = M4::new();
    assert!(m.write("abc ").is_ok());
    assert_eq!(m.take_output(), "abc ");
    assert_eq!(m.output(), "");
}

#[test]
fn empty_input_gives_empty_output() {
    let mut m = M4::new();
    assert!(m.write("").is_ok());
    assert!(m.finish().is_ok());
    assert_eq!(m.output(), "");
}

#[test]
fn unterminated_quote_is_an_error_at_finish() {
    let mut m = M4::new();
    assert!(m.write("`abc").is_ok());
    assert!(matches!(m.finish(), Err(MacroError::UnterminatedQuote)));
}

#[test]
fn unterminated_call_is_an_error_at_finish() {
    let mut m = M4::new();
    assert!(m.write("define(`m', `$1')m(abc").is_ok());
    match m.finish() {
        Err(MacroError::UnterminatedCall { name }) => assert_eq!(text(&name), "m"),
        _ => panic!("expected an unterminated call"),
    }
}

#[test]
fn placeholder_past_the_arguments_is_an_error() {
    let mut m = M4::new();
    match m.write("define(`m', `$3')m(a)\n") {
        Err(MacroError::UndefinedPlaceholder { name, index }) => {
            assert_eq!(text(&name), "m");
            assert_eq!(text(&index), "3");
        }
        _ => panic!("expected an undefined placeholder"),
    }
}

#[test]
fn define_with_one_argument_is_an_error() {
    let mut m = M4::new();
    assert!(matches!(m.write("define(`x')\n"), Err(MacroError::DefineArity { given: 1 })));
}

#[test]
fn plain_text_passes_through() {
    let mut m = M4::new();
    assert!(m.write("plain text, (with) commas\n").is_ok());
    assert_eq!(m.output(), "plain text, (with) commas\n");
}

#[test]
fn expand_replaces_each_placeholder() {
    let args = vec![chars("m"), chars("a"), chars("b")];
    let r = expand(&chars("$0:$2-$1$1"), &args).unwrap();
    assert_eq!(text(&r), "m:b-aa");
}

#[test]
fn expand_reads_all_digits_of_a_placeholder() {
    let mut args = vec![chars("m")];
    for i in 1..13 {
        args.push(chars(&format!("a{}", i)));
    }
    let r = expand(&chars("$12|$1"), &args).unwrap();
    assert_eq!(text(&r), "a12|a1");
}

#[test]
fn expand_does_not_rescan_replacements() {
    let args = vec![chars("m"), chars("$2"), chars("x")];
    let r = expand(&chars("$1$2"), &args).unwrap();
    assert_eq!(text(&r), "$2x");
}

#[test]
fn expand_leaves_a_lone_dollar() {
    let args = vec![chars("m")];
    let r = expand(&chars("$ $a 5$"), &args).unwrap();
    assert_eq!(text(&r), "$ $a 5$");
}

#[test]
fn expand_reports_a_missing_argument() {
    let args = vec![chars("m"), chars("a")];
    let e = expand(&chars("$1$2"), &args).unwrap_err();
    assert_eq!(text(&e), "2");
}
