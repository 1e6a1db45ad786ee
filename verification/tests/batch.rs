use laya_rust::batch::{build_batch, group_by_budget, order_by_len, plan_items, Item};
use laya_rust::systemone::{Json, Question};
use laya_rust::tokenizer::{MergeRule, Tokenizer};

fn item(id: &str, len: usize, markers: Vec<i64>, qtype: i64) -> Item {
    Item { id: id.to_string(), seq: (1..=len as i64).collect(), markers, qtype }
}

#[test]
fn items_sort_by_length_stably() {
    let items = vec![item("a", 5, vec![], 0), item("b", 2, vec![], 0), item("c", 5, vec![], 0), item("d", 1, vec![], 0)];
    assert_eq!(order_by_len(&items), vec![3, 1, 0, 2]);
}

#[test]
fn groups_respect_the_token_budget() {
    let items = vec![item("a", 10, vec![], 0), item("b", 4, vec![], 0), item("c", 6, vec![], 0), item("d", 30, vec![], 0)];
    // sorted: b(4) c(6) a(10) d(30); b+c pad to 12, +a would pad to 30 > 24
    assert_eq!(group_by_budget(&items, 24), vec![vec![1, 2], vec![0], vec![3]]);
    assert_eq!(group_by_budget(&items, 1000), vec![vec![1, 2, 0, 3]]);
    assert_eq!(group_by_budget(&items, 1), vec![vec![1], vec![2], vec![0], vec![3]]);
    assert!(group_by_budget(&[], 10).is_empty());
}

#[test]
fn batches_are_padded_row_by_row() {
    let items = vec![item("a", 3, vec![0, 2], 1), item("b", 1, vec![0], 2)];
    let b = build_batch(&items, &[1, 0]);
    assert_eq!((b.n, b.l, b.k), (2, 3, 2));
    assert_eq!(b.ids, vec![1, 0, 0, 1, 2, 3]);
    assert_eq!(b.att, vec![1, 0, 0, 1, 1, 1]);
    assert_eq!(b.mpos, vec![0, 0, 0, 2]);
    assert_eq!(b.mmask, vec![1, 0, 1, 1]);
    assert_eq!(b.qtype, vec![2, 1]);
}

fn tokenizer() -> Tokenizer {
    let vocab: Vec<(String, i64)> = "abcdefghijklmnopqrstuvwxyz".chars().enumerate().map(|(i, c)| (c.to_string(), i as i64 + 1)).collect();
    let added = vec![
        ("[CLS]".to_string(), 50, false),
        ("[SEP]".to_string(), 51, false),
        ("[MASK]".to_string(), 52, true),
        ("[PAD]".to_string(), 53, false),
        ("[UNK]".to_string(), 0, false),
    ];
    Tokenizer::new(vocab, Vec::<MergeRule>::new(), added).unwrap()
}

#[test]
fn plans_refuse_options_that_do_not_fit() {
    let t = tokenizer();
    let few = Question {
        id: "few".to_string(),
        ty: "score".to_string(),
        qtype: 1,
        instructions: "how".to_string(),
        crit: Json::Array(vec![Json::Str("a".to_string()), Json::Str("b".to_string())]),
    };
    let plan = plan_items(&t, "state", &vec![few]).unwrap();
    assert_eq!(plan.len(), 1);
    assert_eq!(plan[0].id, "few");
    assert_eq!(plan[0].markers.len(), 2);
    assert_eq!(plan[0].qtype, 1);

    // 200 options of four tokens each leave no room for all of their markers in 512
    let many = Question {
        id: "many".to_string(),
        ty: "score".to_string(),
        qtype: 1,
        instructions: "how".to_string(),
        crit: Json::Array((0..200).map(|_| Json::Str("abcdefgh".to_string())).collect()),
    };
    let err = plan_items(&t, "state", &vec![many]).err().unwrap();
    assert_eq!(err.0, "many");
    assert_eq!(err.1, 200);
    assert!(err.2 < 200);
}

#[test]
fn every_item_lands_in_exactly_one_group() {
    let lens = [7usize, 3, 9, 3, 1, 12, 5, 5];
    let items: Vec<Item> = lens.iter().enumerate().map(|(i, l)| item(&i.to_string(), *l, vec![], 0)).collect();
    for budget in [1usize, 10, 16, 30, 100] {
        let mut seen: Vec<usize> = group_by_budget(&items, budget).into_iter().flatten().collect();
        seen.sort();
        assert_eq!(seen, (0..items.len()).collect::<Vec<usize>>(), "budget {}", budget);
    }
}

/// The fewest consecutive groups that split `lens` (already shortest first) within budget.
fn fewest_splits(lens: &[usize], budget: usize) -> usize {
    let n = lens.len();
    let mut best = vec![usize::MAX; n + 1];
    best[0] = 0;
    for end in 1..=n {
        for start in 0..end {
            let count = end - start;
            let fits = count == 1 || lens[end - 1] * count <= budget;
            if fits && best[start] != usize::MAX {
                best[end] = best[end].min(best[start] + 1);
            }
        }
    }
    best[n]
}

#[test]
fn grouping_takes_the_fewest_passes() {
    let sizes = [[1usize, 2, 3, 4, 5, 6], [5, 5, 5, 1, 1, 9], [7, 2, 2, 8, 3, 3], [4, 4, 4, 4, 4, 4]];
    for lens in sizes {
        let items: Vec<Item> = lens.iter().enumerate().map(|(i, l)| item(&i.to_string(), *l, vec![], 0)).collect();
        let mut sorted = lens.to_vec();
        sorted.sort();
        for budget in [1usize, 5, 8, 12, 16, 20, 30, 100] {
            let groups = group_by_budget(&items, budget);
            assert_eq!(groups.len(), fewest_splits(&sorted, budget), "{lens:?} within {budget}");
        }
    }
}

/// Tries every way to place the items from `i` on, keeping in `best` the fewest groups.
fn place(lens: &[usize], budget: usize, i: usize, groups: &mut Vec<Vec<usize>>, best: &mut usize) {
    if groups.len() >= *best {
        return;
    }
    if i == lens.len() {
        *best = groups.len();
        return;
    }
    for g in 0..=groups.len() {
        if g == groups.len() {
            groups.push(vec![lens[i]]);
        } else {
            groups[g].push(lens[i]);
        }
        let size = groups[g].len();
        let fits = size == 1 || groups[g].iter().max().unwrap() * size <= budget;
        if fits {
            place(lens, budget, i + 1, groups, best);
        }
        if g == groups.len() - 1 && groups[g].len() == 1 {
            groups.pop();
        } else {
            groups[g].pop();
        }
    }
}

/// The fewest groups over every split of `lens` into groups that fit `budget`.
fn fewest_groups_any(lens: &[usize], budget: usize) -> usize {
    let mut best = usize::MAX;
    place(lens, budget, 0, &mut Vec::new(), &mut best);
    best
}

#[test]
fn no_split_of_the_items_takes_fewer_passes() {
    let sizes = [[1usize, 2, 3, 4, 5, 6], [5, 5, 5, 1, 1, 9], [7, 2, 2, 8, 3, 3], [9, 1, 8, 2, 7, 3]];
    for lens in sizes {
        let items: Vec<Item> = lens.iter().enumerate().map(|(i, l)| item(&i.to_string(), *l, vec![], 0)).collect();
        for budget in [1usize, 5, 8, 12, 16, 20, 30, 100] {
            assert_eq!(group_by_budget(&items, budget).len(), fewest_groups_any(&lens, budget), "{lens:?} within {budget}");
        }
    }
}
