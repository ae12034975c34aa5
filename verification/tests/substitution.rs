use loadfire::data::DataRow;
use loadfire::template::replace_placeholders;

fn row(pairs: &[(&str, &str)]) -> DataRow {
    DataRow {
        pairs: pairs
            .iter()
            .map(|(k, v)| (k.to_string(), v.to_string()))
            .collect(),
    }
}

#[test]
fn substitutes_two_tokens() {
    let r = row(&[("name", "Ann"), ("id", "7")]);
    let out = replace_placeholders("Hello ${name}, id=${id}", &r);
    assert_eq!(out, "Hello Ann, id=7");
}

#[test]
fn template_without_tokens_is_unchanged() {
    let r = row(&[("name", "Ann"), ("id", "7")]);
    let out = replace_placeholders("plain text, no tokens here", &r);
    assert_eq!(out, "plain text, no tokens here");
}

#[test]
fn unmatched_token_passes_through() {
    let r = row(&[("name", "Ann")]);
    let out = replace_placeholders("hi ${other} and ${name}", &r);
    assert_eq!(out, "hi ${other} and Ann");
}

#[test]
fn replaces_every_occurrence_of_a_token() {
    let r = row(&[("a", "b")]);
    let out = replace_placeholders("${a}${a} ${a}", &r);
    assert_eq!(out, "bb b");
}

#[test]
fn tokens_are_independent_of_row_order() {
    let out_ab = replace_placeholders("${b}${a}", &row(&[("a", "1"), ("b", "2")]));
    let out_ba = replace_placeholders("${b}${a}", &row(&[("b", "2"), ("a", "1")]));
    assert_eq!(out_ab, "21");
    assert_eq!(out_ba, "21");
}

#[test]
fn substituted_text_is_never_rescanned() {
    let r = row(&[("a", "${b}"), ("b", "X")]);
    let out = replace_placeholders("${a} ${b}", &r);
    assert_eq!(out, "${b} X");
}

#[test]
fn first_pair_wins_for_a_duplicated_name() {
    let r = row(&[("a", "one"), ("a", "two")]);
    let out = replace_placeholders("${a}", &r);
    assert_eq!(out, "one");
}

#[test]
fn empty_template_stays_empty() {
    let r = row(&[("a", "b")]);
    let out = replace_placeholders("", &r);
    assert_eq!(out, "");
}

#[test]
fn empty_row_leaves_template_alone() {
    let r = row(&[]);
    let out = replace_placeholders("keep ${this}", &r);
    assert_eq!(out, "keep ${this}");
}

#[test]
fn dollar_without_brace_is_kept() {
    let r = row(&[("a", "x")]);
    let out = replace_placeholders("$a ${ a } ${a}", &r);
    assert_eq!(out, "$a ${ a } x");
}

#[test]
fn value_may_be_empty() {
    let r = row(&[("gone", "")]);
    let out = replace_placeholders("<${gone}>", &r);
    assert_eq!(out, "<>");
}
