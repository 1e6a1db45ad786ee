use laya_rust::systemone::{
    build_sequence, decimal_str, level_texts, option_keys, parse_questions, py_str, qname, qtype_of, render_options, replace,
    temperature_slot, Json, Question, RawQuestion,
};
use laya_rust::tokenizer::{MergeRule, Tokenizer};

fn s(x: &str) -> String {
    x.to_string()
}

fn question(ty: &str, crit: Json) -> Question {
    Question { id: s("q"), ty: s(ty), qtype: qtype_of(ty), instructions: s("Pick one"), crit }
}

fn tokenizer() -> Tokenizer {
    let vocab: Vec<(String, i64)> = "abcdefghijklmnopqrstuvwxyz:"
        .chars()
        .enumerate()
        .map(|(i, c)| (c.to_string(), i as i64 + 1))
        .chain(std::iter::once((s("Ġ"), 40)))
        .collect();
    let added = vec![
        (s("[CLS]"), 50, false),
        (s("[SEP]"), 51, false),
        (s("[MASK]"), 52, true),
        (s("[PAD]"), 53, false),
        (s("[UNK]"), 0, false),
    ];
    Tokenizer::new(vocab, Vec::<MergeRule>::new(), added).unwrap()
}

#[test]
fn python_rendering() {
    assert_eq!(py_str(&Json::Null), "None");
    assert_eq!(py_str(&Json::Bool(true)), "True");
    assert_eq!(py_str(&Json::Bool(false)), "False");
    assert_eq!(py_str(&Json::Number(s("2.5"))), "2.5");
    assert_eq!(py_str(&Json::Str(s("hi"))), "hi");
    assert_eq!(
        py_str(&Json::Array(vec![Json::Number(s("1")), Json::Str(s("a")), Json::Null])),
        "[1, a, None]"
    );
    assert_eq!(
        py_str(&Json::Object(vec![(s("k"), Json::Bool(false)), (s("j"), Json::Array(vec![]))])),
        "{'k': False, 'j': []}"
    );
}

#[test]
fn question_type_names() {
    assert_eq!(qtype_of("choice"), 0);
    assert_eq!(qtype_of("score"), 1);
    assert_eq!(qtype_of("noul"), 2);
    assert_eq!(qtype_of("other"), 2);
    assert_eq!(qname(0), "choice");
    assert_eq!(qname(1), "score");
    assert_eq!(qname(2), "noul");
    assert_eq!(qname(7), "noul");
    for t in ["choice", "score", "noul"] {
        assert_eq!(qname(qtype_of(t)), t);
    }
}

#[test]
fn text_helpers() {
    assert_eq!(decimal_str(0), "0");
    assert_eq!(decimal_str(1234567890), "1234567890");
    assert_eq!(replace("a [MASK] b [MASK]", "[MASK]", " "), "a   b  ");
    assert_eq!(replace("aaa", "aa", "b"), "ba");
    assert_eq!(replace("plain", "[MASK]", " "), "plain");
}

#[test]
fn options_of_each_question_type() {
    let q = question(
        "choice",
        Json::Object(vec![(s("billing"), Json::Str(s("Payments"))), (s("other"), Json::Null)]),
    );
    assert_eq!(render_options(&q), vec!["billing: Payments", "other"]);
    let q = question("score", Json::Array(vec![Json::Str(s("Calm")), Json::Str(s("Angry"))]));
    assert_eq!(render_options(&q), vec!["level 0: Calm", "level 1: Angry"]);
    let q = question("noul", Json::Null);
    assert_eq!(
        render_options(&q),
        vec!["false: no, the statement does not hold", "true: yes, the statement holds"]
    );
    let q = question("noul", Json::Object(vec![(s("true"), Json::Str(s("urgent"))), (s("false"), Json::Null)]));
    assert_eq!(render_options(&q), vec!["false: no, the statement does not hold", "true: urgent"]);
    let q = question("choice", Json::Null);
    assert!(render_options(&q).is_empty());
}

#[test]
fn parsing_questions() {
    let raw = vec![RawQuestion {
        id: s("d"),
        ty: Some(s("choice")),
        instructions: Some(s("Which?")),
        criteria: Json::Array(vec![Json::Str(s("b")), Json::Str(s("a")), Json::Str(s("b"))]),
    }];
    let qs = parse_questions(raw).unwrap();
    assert_eq!(qs.len(), 1);
    assert_eq!(qs[0].qtype, 0);
    match &qs[0].crit {
        Json::Object(m) => {
            let keys: Vec<&str> = m.iter().map(|e| e.0.as_str()).collect();
            assert_eq!(keys, vec!["a", "b"]);
            assert!(m.iter().all(|e| matches!(e.1, Json::Null)));
        }
        _ => panic!("a list of choices becomes a map"),
    }
    let missing_type = vec![RawQuestion { id: s("x"), ty: None, instructions: Some(s("i")), criteria: Json::Null }];
    assert_eq!(parse_questions(missing_type).err(), Some(s("question x: missing \"type\"")));
    let bad_type =
        vec![RawQuestion { id: s("y"), ty: Some(s("rank")), instructions: Some(s("i")), criteria: Json::Null }];
    assert_eq!(parse_questions(bad_type).err(), Some(s("question y: bad type rank")));
    let no_instructions =
        vec![RawQuestion { id: s("z"), ty: Some(s("noul")), instructions: None, criteria: Json::Null }];
    assert_eq!(parse_questions(no_instructions).err(), Some(s("question z: missing \"instructions\"")));
}

#[test]
fn sequences_put_markers_on_mask_ids() {
    let t = tokenizer();
    let q = question("choice", Json::Object(vec![(s("a"), Json::Null), (s("b"), Json::Null)]));
    let (ids, markers) = build_sequence(&t, "hi", &q);
    assert_eq!(markers.len(), 2);
    for m in &markers {
        assert_eq!(ids[*m as usize], t.mask);
    }
    assert_eq!(ids[0], t.cls);
    assert_eq!(*ids.last().unwrap(), t.sep);
    // [CLS] "choice question: Pick one" [SEP] [MASK] " a" [MASK] " b" [SEP] "hi" [SEP]
    let head = t.encode("choice question: Pick one", false);
    assert_eq!(markers[0] as usize, head.len() + 2);
    assert_eq!(markers[1] - markers[0], 3);
    assert_eq!(ids.len(), head.len() + 3 + 6 + 2 + 1);
}

#[test]
fn long_states_are_cut_to_512() {
    let t = tokenizer();
    let q = question("noul", Json::Null);
    let state = "ab".repeat(600);
    let (ids, markers) = build_sequence(&t, &state, &q);
    assert_eq!(ids.len(), 512);
    assert_eq!(ids[511], t.sep);
    assert_eq!(markers.len(), 2);
}

#[test]
fn calibration_slots() {
    let keys = vec![s("choice:2"), s("score:3-5"), s("noul:2"), s("choice:11+"), s("choice:2")];
    assert_eq!(temperature_slot(&keys, 0, 2), Some(0));
    assert_eq!(temperature_slot(&keys, 0, 1), Some(0));
    assert_eq!(temperature_slot(&keys, 1, 4), Some(1));
    assert_eq!(temperature_slot(&keys, 2, 2), Some(2));
    assert_eq!(temperature_slot(&keys, 0, 40), Some(3));
    assert_eq!(temperature_slot(&keys, 0, 7), None);
    assert_eq!(temperature_slot(&keys, 1, 2), None);
}

#[test]
fn option_names_and_level_texts() {
    let crit = Json::Object(vec![(s("billing"), Json::Str(s("Payments"))), (s("sales"), Json::Null)]);
    assert_eq!(option_keys(&crit), vec![s("billing"), s("sales")]);
    assert!(level_texts(&crit).is_empty());
    let levels = Json::Array(vec![Json::Str(s("Calm")), Json::Number(s("2")), Json::Bool(true)]);
    assert_eq!(level_texts(&levels), vec![s("Calm"), s("2"), s("True")]);
    assert!(option_keys(&levels).is_empty());
}

#[test]
fn a_mask_in_state_or_instructions_reads_as_a_space() {
    let t = tokenizer();
    let mut q = question("noul", Json::Null);
    q.instructions = s("is it [MASK] urgent");
    let mut plain = question("noul", Json::Null);
    plain.instructions = s("is it   urgent");
    assert_eq!(build_sequence(&t, "help [MASK] now", &q), build_sequence(&t, "help   now", &plain));
    let (ids, _) = build_sequence(&t, "help [MASK] now", &q);
    assert_eq!(ids.iter().filter(|i| **i == 52).count(), 2);
}

#[test]
fn head_and_options_stay_within_192_ids() {
    let t = tokenizer();
    for n in [2usize, 10, 44, 46, 50, 100, 200, 300] {
        let crit = Json::Object((0..n).map(|i| (format!("option{i:04}"), Json::Null)).collect());
        let mut q = question("choice", crit);
        q.instructions = s(&"pick one please ".repeat(30));
        let (ids, markers) = build_sequence(&t, "hi", &q);
        assert!(!markers.is_empty());
        // the [SEP] after the options: the first [SEP] after the last marker
        let last = *markers.last().unwrap() as usize;
        let o = last + ids[last..].iter().position(|i| *i == t.sep).unwrap();
        assert!(o - 2 <= 192, "{n} options: head and options take {} ids", o - 2);
        for m in &markers {
            assert_eq!(ids[*m as usize], t.mask);
        }
        assert_eq!(markers.len(), n.min(192));
    }
}
