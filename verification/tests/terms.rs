//! Normalization, identifiers, initials, prefixes and query aliases.

use lixun::model::Category;
use lixun::name_map::NameMap;
use lixun::normalize::{
    collapse_whitespace, fold_decomposed, is_combining_mark, latch_key_of_normalized,
    normalize_for_latch_key, normalize_for_match,
};
use lixun::query_alias::rewrite_query_aliases;
use lixun::scoring::{
    acronym_initials, acronym_initials_indexed, acronym_match, compute_title_prefixes,
    is_separator, prefix_match, prefixes_of_split, recency_age_secs, MAX_PREFIX_LEN,
};
use lixun::tokenizer::{analyzer_chain, split_identifiers, AnalyzerStep, MAX_TOKEN_BYTES};

fn aliases(pairs: &[(&str, &str)]) -> NameMap<String> {
    let mut map = NameMap::new();
    for (alias, field) in pairs {
        map.insert(alias.to_string(), field.to_string());
    }
    map
}

#[test]
fn test_normalize_for_match() {
    let fixtures = [
        ("", ""),
        ("   ", ""),
        ("Café", "cafe"),
        ("RÉSUMÉ", "resume"),
        ("Foo   Bar", "foo bar"),
        ("-foo", "-foo"),
        ("naïve", "naive"),
        ("日本語", "日本語"),
    ];
    for (input, expected) in fixtures {
        let actual = normalize_for_match(input);
        assert_eq!(
            actual, expected,
            "normalize_for_match({:?}) expected {:?}, got {:?}",
            input, expected, actual
        );
    }
}

#[test]
fn normal_forms_are_stable_words() {
    assert_eq!(normalize_for_match("  Foo\t-Bar | \"x\"+Y \n"), "foo -bar | \"x\"+y");
    for q in ["", " a  B ", "Crème\u{a0}Brûlée", "-Foo |bar", "ﬁle Ⅷ", "İ ı"] {
        let once = normalize_for_match(q);
        assert_eq!(normalize_for_match(&once), once, "{q}");
        assert_eq!(once.split_whitespace().collect::<Vec<_>>().join(" "), once, "{q}");
        assert!(!once.chars().any(is_combining_mark), "{q}");
    }

    for input in ["Ärger  Über", "  İstanbul ", "ﬁle", "Ａ", "e\u{301}\u{302}x"] {
        let once = normalize_for_match(input);
        assert_eq!(normalize_for_match(&once), once, "input: {input:?}");
    }
}

#[test]
fn every_character_has_a_stable_normal_form() {
    for c in '\u{0}'..=char::MAX {
        let once = normalize_for_match(&c.to_string());
        assert!(!once.chars().any(is_combining_mark), "{c:?}");
        assert!(once.chars().all(|x| x.to_lowercase().eq([x])), "{c:?}");
        assert_eq!(normalize_for_match(&once), once, "{c:?}");
    }
}

#[test]
fn marks_behind_a_stripped_joiner_are_put_in_order_the_second_time() {
    let once = normalize_for_match("\u{5b9}\u{34f}\u{5b0}");
    assert_eq!(once, "\u{5b9}\u{5b0}");
    assert_eq!(normalize_for_match(&once), "\u{5b0}\u{5b9}");
}

#[test]
fn initials_of_no_character_hold_a_separator() {
    for c in '\u{80}'..=char::MAX {
        let initials = acronym_initials(&c.to_string());
        assert!(!initials.chars().any(is_separator), "{c:?}");
        assert!(initials.chars().all(|x| !x.is_ascii() || x.is_ascii_lowercase()), "{c:?}");
    }
}

#[test]
fn splitting_twice_is_splitting_once() {
    for s in ["HTTPServer2Go", "  snake_case--kebab ", "a_B-c d\te", "JSONParser.java", "x9Y", ""] {
        let once = split_identifiers(s);
        assert_eq!(split_identifiers(&once), once, "{s}");
        assert!(!once.chars().any(|c| c.is_uppercase() || c == '_' || c == '-'), "{s}");
        let rest = |t: &str| {
            t.chars().filter(|c| !(*c == '_' || *c == '-' || c.is_whitespace())).collect::<String>()
        };
        assert_eq!(rest(&once), rest(&s.to_ascii_lowercase()), "{s}");
    }

    assert_eq!(split_identifiers("v2Report"), "v2 report");
    assert_eq!(split_identifiers("ÄpfelÖl"), "äpfel öl");
    assert_eq!(split_identifiers(""), "");
}

#[test]
fn initials_of_joined_titles_are_joined() {
    for (a, b) in [("JSONParser", "java"), ("", "x"), ("Visual Studio", ""), ("aB", "Cd.e"), ("Élan", "Æon")] {
        for sep in [' ', '_', '-', '.', '/', '\t'] {
            assert_eq!(
                acronym_initials(&format!("{a}{sep}{b}")),
                acronym_initials(a) + &acronym_initials(b),
                "{a:?} {sep:?} {b:?}"
            );
        }
    }
}

#[test]
fn initials_tokens_are_those_of_the_words_and_of_the_whole() {
    for title in ["JSONParser.java", "Firefox", "Visual Studio Code", "a a", "", "9 lives", "ÄrgerÜber.İx", "Ωmega ΑΣ"] {
        let split = split_identifiers(title);
        let mut expected: Vec<String> =
            split.split_whitespace().map(acronym_initials).filter(|s| !s.is_empty()).collect();
        let whole = acronym_initials(title);
        if !whole.is_empty() && !expected.contains(&whole) {
            expected.push(whole);
        }
        assert_eq!(acronym_initials_indexed(title), expected.join(" "), "{title}");
    }
}

#[test]
fn test_normalize_for_latch_key() {
    let fixtures = [
        ("", ""),
        ("-foo", "foo"),
        ("+foo", "foo"),
        ("\"foo bar\"", "foo bar"),
        ("foo bar", "foo bar"),
        ("bar foo", "bar foo"),
        ("Café", "cafe"),
    ];
    for (input, expected) in fixtures {
        let actual = normalize_for_latch_key(input);
        assert_eq!(
            actual, expected,
            "normalize_for_latch_key({:?}) expected {:?}, got {:?}",
            input, expected, actual
        );
    }
}

#[test]
fn decomposed_text_is_folded() {
    assert_eq!(fold_decomposed("E\u{301}te\u{301}"), "ete");
    assert_eq!(fold_decomposed("  A \t B "), "a b");
    assert!(is_combining_mark('\u{301}'));
    assert!(!is_combining_mark('e'));
    assert_eq!(collapse_whitespace(&[' ', 'a', '\n', '\t', 'b', ' ']), " a b ");
    assert_eq!(latch_key_of_normalized("+foo -\"bar\""), normalize_for_latch_key("+foo -\"bar\""));
}

#[test]
fn test_split_identifiers_examples() {
    let cases = [
        ("MyFileName", "my file name"),
        ("my_file_name", "my file name"),
        ("my-file-name", "my file name"),
        ("XMLHttpRequest", "xml http request"),
        ("simple", "simple"),
        ("Already Spaces", "already spaces"),
        ("snake_case_ID", "snake case id"),
    ];

    for (input, expected) in cases {
        assert_eq!(split_identifiers(input), expected, "input: {input}");
    }
}

#[test]
fn analyzers_lowercase_before_they_stem() {
    assert_eq!(
        analyzer_chain("spotlight"),
        Some(vec![AnalyzerStep::RemoveLong, AnalyzerStep::LowerCase, AnalyzerStep::AsciiFold])
    );
    assert_eq!(
        analyzer_chain("spotlight_stem"),
        Some(vec![
            AnalyzerStep::RemoveLong,
            AnalyzerStep::LowerCase,
            AnalyzerStep::AsciiFold,
            AnalyzerStep::Stem,
        ])
    );
    assert_eq!(analyzer_chain("raw"), None);
    assert_eq!(MAX_TOKEN_BYTES, 40);
}

#[test]
fn acronym_fixtures() {
    let cases = [
        ("JSONParser", "jp"),
        ("XMLHttpRequest", "xhr"),
        ("parseURL", "pu"),
        ("iPhone", "ip"),
        ("snake_case", "sc"),
        ("kebab-case", "kc"),
        ("Café Pro", "cp"),
        ("Firefox", "f"),
        ("Google Image Capture", "gic"),
        ("Visual Studio Code", "vsc"),
        ("", ""),
        ("  ", ""),
        ("A", "a"),
        ("ABC", "a"),
    ];

    for (title, expected) in cases {
        assert_eq!(acronym_initials(title), expected, "title: {title:?}");
    }
}

#[test]
fn title_prefixes_fixtures() {
    let cases: &[(&str, &str)] = &[
        ("Firefox", "fi fir fire firef firefo firefox"),
        ("JSONParser", "js jso json pa par pars parse parser"),
        (
            "Visual Studio Code",
            "vi vis visu visua visual st stu stud studi studio co cod code",
        ),
        ("", ""),
        ("A", ""),
        ("ab", "ab"),
    ];

    for (title, expected) in cases {
        assert_eq!(compute_title_prefixes(title), *expected, "title: {title:?}");
    }
}

#[test]
fn title_prefixes_max_length_cap() {
    let got = compute_title_prefixes("configurationmanagerfactoryimpl");
    let longest_token = got
        .split_whitespace()
        .max_by_key(|t| t.chars().count())
        .unwrap();
    assert_eq!(
        longest_token.chars().count(),
        12,
        "MAX_PREFIX_LEN cap enforced; got longest token {longest_token:?} from {got:?}"
    );
    assert!(got.split_whitespace().any(|t| t == "configuratio"));
    assert_eq!(MAX_PREFIX_LEN, 12);
    assert_eq!(prefixes_of_split("ab cde"), "ab cd cde");
}

#[test]
fn acronym_initials_indexed_fixtures() {
    let cases: &[(&str, &str)] = &[
        ("Firefox", "f"),
        ("JSONParser", "j p jp"),
        ("Visual Studio Code", "v s c vsc"),
        ("Google Image Capture", "g i c gic"),
        ("", ""),
        ("ABC", "a"),
    ];

    for (title, expected) in cases {
        assert_eq!(acronym_initials_indexed(title), *expected, "title: {title:?}");
    }
}

#[test]
fn acronym_initials_indexed_retrieves_jp_for_jsonparser() {
    let indexed = acronym_initials_indexed("JSONParser");
    let tokens: Vec<&str> = indexed.split_whitespace().collect();
    assert!(
        tokens.contains(&"jp"),
        "indexed stream {indexed:?} must contain token `jp` for BM25 recall"
    );
}

#[test]
fn acronym_initials_indexed_filename_with_extension() {
    let indexed = acronym_initials_indexed("JSONParser.java");
    let tokens: Vec<&str> = indexed.split_whitespace().collect();
    assert!(
        tokens.contains(&"jpj"),
        "concatenated initials include filename extension; stream: {indexed:?}"
    );
}

fn prefix_mult(title_norm: &str, q_norm: &str, boost: f32) -> f32 {
    if prefix_match(title_norm, q_norm) {
        boost
    } else {
        1.0
    }
}

#[test]
fn prefix_and_unicode() {
    assert_eq!(prefix_mult("firefox", "fire", 1.4), 1.4);
    assert_eq!(prefix_mult("campfire", "fire", 1.4), 1.0);
    assert_eq!(prefix_mult("café pro", "caf", 1.4), 1.4);
}

#[test]
fn a_query_matches_the_start_of_the_initials() {
    assert!(acronym_match("Visual Studio Code", "vsc"));
    assert!(acronym_match("Visual Studio Code", "vs"));
    assert!(!acronym_match("Visual Studio Code", ""));
    assert!(!acronym_match("Visual Studio Code", "code"));

    assert_eq!(compute_title_prefixes("Café"), "ca caf café");
}

#[test]
fn recency_has_an_age_for_files_only() {
    assert_eq!(recency_age_secs(Category::File, 100, 250), Some(150));
    assert_eq!(recency_age_secs(Category::File, 250, 100), Some(0));
    assert_eq!(recency_age_secs(Category::App, 100, 250), None);
}

#[test]
fn test_rewrite_aliases_folder_to_schema() {
    let aliases = aliases(&[("folder", "maildir_folder")]);
    assert_eq!(rewrite_query_aliases("folder:Inbox", &aliases), "maildir_folder:Inbox");
}

#[test]
fn test_rewrite_aliases_preserves_non_alias() {
    let aliases = aliases(&[("folder", "maildir_folder")]);
    assert_eq!(rewrite_query_aliases("hello world", &aliases), "hello world");
    assert_eq!(rewrite_query_aliases("unknown:value", &aliases), "unknown:value");
}

#[test]
fn test_rewrite_aliases_respects_word_boundary() {
    let aliases = aliases(&[("folder", "maildir_folder")]);
    assert_eq!(rewrite_query_aliases("myfolder:x", &aliases), "myfolder:x");
}

#[test]
fn test_rewrite_aliases_multiple() {
    let aliases = aliases(&[("folder", "maildir_folder"), ("flags", "maildir_flags")]);
    assert_eq!(
        rewrite_query_aliases("folder:INBOX AND flags:seen", &aliases),
        "maildir_folder:INBOX AND maildir_flags:seen"
    );
}
