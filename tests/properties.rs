use os_release::{find_separator, has_prefix, is_enclosed_with, parse_line, trim_spaces, OsRelease};
use std::collections::BTreeMap;

fn parse(text: &str) -> OsRelease {
    let lines: Vec<String> = text.lines().map(|x| x.to_owned()).collect();
    OsRelease::from_lines(&lines)
}

fn extra_of(pairs: &[(&str, &str)]) -> BTreeMap<String, String> {
    let mut map = BTreeMap::new();
    for (k, v) in pairs {
        map.insert(k.to_string(), v.to_string());
    }
    map
}

#[test]
fn default_record_fields() {
    let r = OsRelease::default();
    assert_eq!(r.name, "Linux");
    assert_eq!(r.pretty_name, "Linux");
    assert_eq!(r.id, "linux");
    assert_eq!(r.version, "");
    assert_eq!(r.logo, "");
    assert!(r.extra.is_empty());
}

#[test]
fn empty_input_gives_default() {
    let r = OsRelease::from_lines(&[]);
    assert_eq!(r, OsRelease::default());
}

#[test]
fn lines_without_separator_give_default() {
    let r = parse("# just a comment\nplain words\n\n   \n#NAME Fedora");
    assert_eq!(r, OsRelease::default());
}

#[test]
fn unknown_key_value_kept_verbatim() {
    let r = parse("MY_KEY=\"quoted value\"\nOTHER='x'\nSPACED= a b");
    assert_eq!(
        r.extra,
        extra_of(&[("MY_KEY", "\"quoted value\""), ("OTHER", "'x'"), ("SPACED", " a b")])
    );
    assert_eq!(r.name, "Linux");
}

#[test]
fn unknown_key_split_at_first_separator() {
    let r = parse("A=b=c");
    assert_eq!(r.extra, extra_of(&[("A", "b=c")]));
}

#[test]
fn empty_key_is_stored() {
    let r = parse("=value");
    assert_eq!(r.extra, extra_of(&[("", "value")]));
}

#[test]
fn surrounding_line_whitespace_trimmed_before_split() {
    let r = parse("  EXTRA=test  ");
    assert_eq!(r.extra, extra_of(&[("EXTRA", "test")]));
}

#[test]
fn double_quotes_removed() {
    let r = parse("NAME=\"Pop!_OS\"");
    assert_eq!(r.name, "Pop!_OS");
}

#[test]
fn single_quotes_removed() {
    let r = parse("VERSION='18.04 LTS'");
    assert_eq!(r.version, "18.04 LTS");
}

#[test]
fn plain_value_used_verbatim() {
    let r = parse("ID=ubuntu");
    assert_eq!(r.id, "ubuntu");
}

#[test]
fn plain_value_whitespace_trimmed() {
    let r = parse("ID=  ubuntu \t");
    assert_eq!(r.id, "ubuntu");
    let r = parse("  PRETTY_NAME=   \"Ubuntu 18.04\"   ");
    assert_eq!(r.pretty_name, "Ubuntu 18.04");
}

#[test]
fn unicode_whitespace_trimmed() {
    let r = parse("\u{3000}VARIANT=\u{a0}Server\u{2003}");
    assert_eq!(r.variant, "Server");
}

#[test]
fn empty_unknown_value_dropped() {
    let r = parse("ANOTHER_KEY=\n  SPARE=  ");
    assert_eq!(r, OsRelease::default());
}

#[test]
fn empty_known_value_clears_field() {
    let r = parse("NAME=");
    assert_eq!(r.name, "");
    assert!(r.extra.is_empty());
}

#[test]
fn repeated_extra_key_last_wins() {
    let r = parse("EXTRA=first\nEXTRA=second");
    assert_eq!(r.extra, extra_of(&[("EXTRA", "second")]));
}

#[test]
fn repeated_known_key_last_wins() {
    let r = parse("ID=one\nID=two");
    assert_eq!(r.id, "two");
}

#[test]
fn comments_and_blank_lines_ignored() {
    let r = parse("# Comment\n\nID=arch\n   \n#Another comment\nLOGO=archlinux");
    assert_eq!(
        r,
        OsRelease {
            id: "arch".into(),
            logo: "archlinux".into(),
            ..OsRelease::default()
        }
    );
}

#[test]
fn comment_with_separator_goes_to_extra() {
    let r = parse("#KEY=value");
    assert_eq!(r.extra, extra_of(&[("#KEY", "value")]));
}

#[test]
fn parsing_twice_gives_equal_records() {
    let text = "NAME=\"Arch Linux\"\nID=arch\nX=1\n# c\nX=2";
    assert_eq!(parse(text), parse(text));
}

#[test]
fn fedora_minimal_scenario() {
    let r = parse("NAME=Fedora\nVERSION_ID=17\nCPE_NAME=\"cpe:/o:fedoraproject:fedora:17\"");
    assert_eq!(
        r,
        OsRelease {
            name: "Fedora".into(),
            version_id: "17".into(),
            cpe_name: "cpe:/o:fedoraproject:fedora:17".into(),
            ..OsRelease::default()
        }
    );
}

#[test]
fn similar_keys_not_confused() {
    let r = parse("VERSION_ID=7\nVERSION=2\nVERSION_CODENAME=c\nVARIANT_ID=h\nVARIANT=g\nID_LIKE=4\nID=3");
    assert_eq!(r.version_id, "7");
    assert_eq!(r.version, "2");
    assert_eq!(r.version_codename, "c");
    assert_eq!(r.variant_id, "h");
    assert_eq!(r.variant, "g");
    assert_eq!(r.id_like, "4");
    assert_eq!(r.id, "3");
    assert!(r.extra.is_empty());
}

#[test]
fn key_match_is_case_sensitive() {
    let r = parse("name=lower");
    assert_eq!(r.name, "Linux");
    assert_eq!(r.extra, extra_of(&[("name", "lower")]));
}

#[test]
fn parse_line_strips_one_pair() {
    assert_eq!(parse_line("NAME=\"a \"b\" c\"", 5), "a \"b\" c");
    assert_eq!(parse_line("NAME=\"\"", 5), "");
    assert_eq!(parse_line("NAME=''", 5), "");
    assert_eq!(parse_line("NAME=\"\"x\"\"", 5), "\"x\"");
}

#[test]
fn parse_line_keeps_lone_or_unbalanced_quotes() {
    assert_eq!(parse_line("NAME=\"", 5), "\"");
    assert_eq!(parse_line("NAME=\"abc", 5), "\"abc");
    assert_eq!(parse_line("NAME='abc\"", 5), "'abc\"");
}

#[test]
fn parse_line_trims_then_unquotes() {
    assert_eq!(parse_line("ID=  ' x '  ", 3), " x ");
    assert_eq!(parse_line("ID=", 3), "");
}

#[test]
fn enclosed_needs_two_characters() {
    assert!(is_enclosed_with("\"a\"", '"'));
    assert!(is_enclosed_with("''", '\''));
    assert!(!is_enclosed_with("\"", '"'));
    assert!(!is_enclosed_with("", '"'));
    assert!(!is_enclosed_with("'a\"", '"'));
}

#[test]
fn trim_removes_unicode_whitespace() {
    assert_eq!(trim_spaces("\u{3000}\t x y \n\u{85}"), "x y");
    assert_eq!(trim_spaces("   "), "");
    assert_eq!(trim_spaces("abc"), "abc");
}

#[test]
fn prefix_test() {
    assert!(has_prefix("NAME=x", "NAME="));
    assert!(has_prefix("ID=", "ID="));
    assert!(!has_prefix("ID_LIKE=x", "ID="));
    assert!(!has_prefix("ID", "ID="));
    assert!(has_prefix("x", ""));
}

#[test]
fn separator_position() {
    assert_eq!(find_separator("AB=c=d"), Some(2));
    assert_eq!(find_separator("=x"), Some(0));
    assert_eq!(find_separator("no separator"), None);
    assert_eq!(find_separator("é=1"), Some(1));
}
