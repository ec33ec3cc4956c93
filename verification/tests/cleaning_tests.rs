use srt_prep::cleaning::{
    clean_subtitles, convert_mini_kana_to_regular, helper_dedupe_and_sort,
    remove_blacklisted_characters, remove_parentheses_and_contents, CharacterBlacklist,
    RegularKana, SmallKana, SmallKanaMap,
};

fn empty_blacklist() -> CharacterBlacklist {
    CharacterBlacklist::new(vec![])
}

fn empty_map() -> SmallKanaMap {
    SmallKanaMap::new(vec![])
}

#[test]
fn test_parenthetical_span_is_removed() {
    let cleaned = clean_subtitles("えっと（注釈）あ", &empty_blacklist(), &empty_map());
    assert_eq!(cleaned, "えっとあ");
}

#[test]
fn test_ascii_and_fullwidth_parens_mix() {
    assert_eq!(remove_parentheses_and_contents("a(b)c"), "ac");
    assert_eq!(remove_parentheses_and_contents("a（b)c"), "ac");
    assert_eq!(remove_parentheses_and_contents("a(b（c）d)e"), "ae");
}

#[test]
fn test_lone_closer_is_kept_and_nothing_errors() {
    // An unmatched closer never drives the nesting depth below zero: the
    // character passes through unchanged.
    assert_eq!(remove_parentheses_and_contents(")"), ")");
    assert_eq!(clean_subtitles(")", &empty_blacklist(), &empty_map()), ")");
    assert_eq!(remove_parentheses_and_contents("a)b(c)d"), "a)bd");
}

#[test]
fn test_unmatched_opener_drops_the_rest() {
    assert_eq!(remove_parentheses_and_contents("a(bc"), "a");
}

#[test]
fn test_pipeline_is_identity_on_clean_input() {
    let blacklist = CharacterBlacklist::new(vec!['…', '？', ' ']);
    let mapping = SmallKanaMap::new(vec![(SmallKana('っ'), RegularKana('つ'))]);
    let input = "サイコパスを読み取る";
    assert_eq!(clean_subtitles(input, &blacklist, &mapping), input);
}

#[test]
fn test_blacklisted_characters_are_dropped() {
    let blacklist = CharacterBlacklist::new(vec!['-', '9', 'a']);
    assert_eq!(remove_blacklisted_characters("a-b9c", &blacklist), "bc");
    let cleaned = clean_subtitles("サイコパ99ス", &CharacterBlacklist::new(vec!['9']), &empty_map());
    assert_eq!(cleaned, "サイコパス");
}

#[test]
fn test_small_kana_is_normalized() {
    let mapping = SmallKanaMap::new(vec![
        (SmallKana('っ'), RegularKana('つ')),
        (SmallKana('ャ'), RegularKana('ヤ')),
    ]);
    assert_eq!(convert_mini_kana_to_regular(&'っ', &mapping), 'つ');
    assert_eq!(convert_mini_kana_to_regular(&'あ', &mapping), 'あ');
    assert_eq!(clean_subtitles("えっと", &empty_blacklist(), &mapping), "えつと");
}

#[test]
fn test_duplicate_keys_keep_the_earliest_pair() {
    let mapping = SmallKanaMap::new(vec![
        (SmallKana('ぁ'), RegularKana('あ')),
        (SmallKana('ぁ'), RegularKana('い')),
    ]);
    assert_eq!(convert_mini_kana_to_regular(&'ぁ', &mapping), 'あ');
}

#[test]
fn test_stages_compose_in_order() {
    // Filtering runs before normalization: a character produced by the
    // mapping is not filtered away, and a filtered character is never mapped.
    let blacklist = CharacterBlacklist::new(vec!['つ']);
    let mapping = SmallKanaMap::new(vec![(SmallKana('っ'), RegularKana('つ'))]);
    assert_eq!(clean_subtitles("っつ", &blacklist, &mapping), "つ");
    // Parenthetical removal runs before filtering: a blacklisted opener
    // would otherwise not open a span.
    let blacklist2 = CharacterBlacklist::new(vec!['(', ')']);
    assert_eq!(clean_subtitles("a(b)c", &blacklist2, &empty_map()), "ac");
}

#[test]
fn test_dedupe_and_sort_ascii() {
    assert_eq!(helper_dedupe_and_sort("banana"), "abn");
    assert_eq!(helper_dedupe_and_sort(""), "");
    assert_eq!(helper_dedupe_and_sort("cba"), "abc");
}

#[test]
fn test_dedupe_and_sort_orders_by_code_point() {
    assert_eq!(helper_dedupe_and_sort("ばなな"), "なば");
    assert_eq!(helper_dedupe_and_sort("99aa――"), "9a―");
}
