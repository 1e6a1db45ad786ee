use laya_rust::tokenizer::pretok::pre_tokenize;
use laya_rust::tokenizer::{MergeRule, Tokenizer};

fn vocab() -> Vec<(String, i64)> {
    [("h", 1), ("e", 2), ("l", 3), ("o", 4), ("he", 5), ("ll", 6), ("hello", 7), ("Ġ", 8), ("hell", 9), ("x", 10)]
        .iter()
        .map(|(s, i)| (s.to_string(), *i))
        .collect()
}

fn merges() -> Vec<MergeRule> {
    vec![
        MergeRule::Joined("h e".to_string()),
        MergeRule::Pair("l".to_string(), "l".to_string()),
        MergeRule::Joined("he ll".to_string()),
        MergeRule::Pair("hell".to_string(), "o".to_string()),
    ]
}

fn specials(mask_lstrip: bool) -> Vec<(String, i64, bool)> {
    vec![
        ("[CLS]".to_string(), 100, false),
        ("[SEP]".to_string(), 101, false),
        ("[MASK]".to_string(), 102, mask_lstrip),
        ("[PAD]".to_string(), 103, false),
        ("[UNK]".to_string(), 0, false),
    ]
}

fn tok(mask_lstrip: bool) -> Tokenizer {
    Tokenizer::new(vocab(), merges(), specials(mask_lstrip)).expect("all special tokens present")
}

#[test]
fn pre_tokenize_splits_like_gpt2() {
    assert_eq!(pre_tokenize("Don't stop"), vec!["Don", "'t", " stop"]);
    assert_eq!(pre_tokenize("abc123  def"), vec!["abc", "123", " ", " def"]);
    assert_eq!(pre_tokenize("hi!! you"), vec!["hi", "!!", " you"]);
    assert_eq!(pre_tokenize("WE'LL"), vec!["WE", "'LL"]);
    assert_eq!(pre_tokenize(""), Vec::<String>::new());
    assert_eq!(pre_tokenize("  "), vec!["  "]);
}

#[test]
fn merges_apply_in_rank_order() {
    let t = tok(false);
    assert_eq!(t.encode("hello", false), vec![7]);
    assert_eq!(t.encode("hell", false), vec![9]);
    assert_eq!(t.encode("he", false), vec![5]);
    assert_eq!(t.encode("hello", true), vec![100, 7, 101]);
}

#[test]
fn unknown_symbols_get_the_unk_id() {
    let t = tok(false);
    assert_eq!(t.encode("hz", false), vec![1, 0]);
    assert_eq!(t.encode("x", false), vec![10]);
}

#[test]
fn added_tokens_split_the_text() {
    let t = tok(false);
    assert_eq!(t.encode("hello [MASK]", false), vec![7, 8, 102]);
    assert_eq!(t.encode("[MASK]hello[SEP]", false), vec![102, 7, 101]);
    let t = tok(true);
    assert_eq!(t.encode("hello [MASK]", true), vec![100, 7, 102, 101]);
}

#[test]
fn the_longest_added_token_wins() {
    let mut added = specials(false);
    added.push(("[MA".to_string(), 55, false));
    let t = Tokenizer::new(vocab(), merges(), added).unwrap();
    assert_eq!(t.encode("[MASK]", false), vec![102]);
    assert_eq!(t.encode("[MAx", false), vec![55, 10]);
}

#[test]
fn special_ids_come_from_the_added_tokens() {
    let t = tok(false);
    assert_eq!((t.cls, t.sep, t.mask, t.pad, t.unk), (100, 101, 102, 103, 0));
    let mut added = specials(false);
    added.retain(|a| a.0 != "[PAD]");
    assert!(Tokenizer::new(vocab(), merges(), added).is_none());
}

#[test]
fn encoding_is_empty_only_for_empty_text() {
    let t = tok(true);
    assert!(t.encode("", false).is_empty());
    assert_eq!(t.encode("", true), vec![100, 101]);
    for text in ["h", " ", "  ", "\n", "z", "[MASK]", "'s", "é"] {
        assert!(!t.encode(text, false).is_empty(), "{text:?}");
    }
}

/// The White_Space code points the tokenizer's contracts list.
fn listed_space(u: u32) -> bool {
    (0x09..=0x0d).contains(&u)
        || [0x20, 0x85, 0xa0, 0x1680, 0x2028, 0x2029, 0x202f, 0x205f, 0x3000].contains(&u)
        || (0x2000..=0x200a).contains(&u)
}

#[test]
fn whitespace_is_the_listed_code_points() {
    for u in 0..=0x10ffffu32 {
        if let Some(c) = char::from_u32(u) {
            assert_eq!(c.is_whitespace(), listed_space(u), "U+{u:04X}");
        }
    }
    // an ideographic space and an em space are whitespace runs of their own
    assert_eq!(pre_tokenize("a\u{3000}\u{2003}b"), vec!["a", "\u{3000}", "\u{2003}", "b"]);
}
