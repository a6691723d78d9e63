use infr::trie::{padded_fits, words_fit, MAX_NODES, MAX_TOKENS, MAX_WORD_BYTES};
use llguidance::toktrie::{TokRxInfo, TokTrie};

fn words(list: &[&str]) -> Vec<Vec<u8>> {
    list.iter().map(|w| w.as_bytes().to_vec()).collect()
}

#[test]
fn words_have_a_longest_length() {
    assert!(words_fit(&Vec::new()));
    assert!(words_fit(&words(&["", "a", "ab", "a", ""])));
    assert!(words_fit(&vec![vec![7; MAX_WORD_BYTES]]));
    assert!(!words_fit(&vec![vec![1], vec![7; MAX_WORD_BYTES + 1]]));
}

/// `n` words of three bytes, all different.
fn three_bytes(n: usize) -> Vec<Vec<u8>> {
    (0..n).map(|i| vec![(i >> 16) as u8, (i >> 8) as u8, i as u8]).collect()
}

#[test]
fn the_last_node_counts() {
    // The nodes of 2^20 words of three bytes: the root, 16, 4096 and one for each word.
    let n = 1 << 20;
    let mut w = three_bytes(n);
    let nodes = 1 + 16 + 4096 + n;
    // A repeated word takes one more node, and an empty one none.
    let room = MAX_NODES - 1 - nodes;
    for _ in 0..room {
        w.push(vec![0, 0, 0]);
    }
    w.push(Vec::new());
    assert!(words_fit(&w));
    w.push(vec![0, 0, 0]);
    assert!(!words_fit(&w));
}

#[test]
fn the_trie_has_as_many_nodes_as_are_counted() {
    let nodes = |w: &Vec<Vec<u8>>| {
        let info = TokRxInfo::new(w.len() as u32, 0);
        TokTrie::from(&info, w).root().subtree_size()
    };
    assert_eq!(nodes(&words(&["", "a", "ab", "ac", "b"])), 1 + 4);
    assert_eq!(nodes(&words(&["ab", "", "ab", "abc", "ab", "a"])), 1 + 3 + 2);
    assert_eq!(nodes(&words(&["x", "x", "xy", "x", ""])), 1 + 2 + 2);
    assert_eq!(nodes(&three_bytes(300)), 1 + 1 + 2 + 300);
}

#[test]
fn fillers_are_counted_too() {
    assert!(padded_fits(words(&["a"]), 1));
    assert!(padded_fits(words(&["a"]), 1000));
    assert!(!padded_fits(words(&["a"]), MAX_TOKENS + 1));
    assert!(!padded_fits(Vec::new(), usize::MAX));
}
