//! What the token trie of a vocabulary can hold.
//!
//! The trie itself is the `toktrie` crate's. It aborts on words that are too long for it or too many,
//! so they are counted before.
use vstd::prelude::*;

use crate::text::{decimal, digit, digits_value, law_decimal};

verus! {

/// Longest word of a trie, in bytes.
pub const MAX_WORD_BYTES: usize = 1024;

/// Tokens of a trie are numbered below this.
pub const MAX_TOKENS: usize = 0xff_ffff;

/// A trie has fewer nodes than this.
pub const MAX_NODES: usize = 0x40_0000;

/// The words of a list, as sequences.
pub open spec fn texts(words: Seq<Vec<u8>>) -> Seq<Seq<u8>> {
    words.map_values(|w: Vec<u8>| w@)
}

/// Whether `w` begins with `p`.
pub open spec fn begins(w: Seq<u8>, p: Seq<u8>) -> bool {
    p.len() <= w.len() && w.take(p.len() as int) == p
}

/// Whether `p` is empty or one of `words` begins with it.
pub open spec fn is_prefix(words: Seq<Seq<u8>>, p: Seq<u8>) -> bool {
    p.len() == 0 || exists|i: int| 0 <= i < words.len() && #[trigger] begins(words[i], p)
}

/// All prefixes of `words`.
pub open spec fn prefixes(words: Seq<Seq<u8>>) -> Set<Seq<u8>> {
    Set::new(|p: Seq<u8>| is_prefix(words, p))
}

/// How many of `words` are not empty and stand earlier in the list as well.
pub open spec fn repeats(words: Seq<Seq<u8>>) -> nat
    decreases words.len(),
{
    if words.len() == 0 {
        0
    } else {
        let before = words.drop_last();
        let w = words.last();
        repeats(before) + if w.len() > 0 && before.contains(w) {
            1nat
        } else {
            0nat
        }
    }
}

/// Number of nodes of the trie of `words`: one for each prefix, the root's being empty, and one more
/// for each repeated word.
pub open spec fn trie_nodes(words: Seq<Seq<u8>>) -> nat {
    prefixes(words).len() + repeats(words)
}

/// Whether a trie can hold `words`, the word at position `i` being token `i`; an empty word is none.
pub open spec fn trie_fits(words: Seq<Seq<u8>>) -> bool {
    &&& forall|i: int| 0 <= i < words.len() ==> (#[trigger] words[i]).len() <= MAX_WORD_BYTES
    &&& forall|i: int| MAX_TOKENS <= i < words.len() ==> (#[trigger] words[i]).len() == 0
    &&& trie_nodes(words) < MAX_NODES
}

/// The word that stands for token `i` where the tokenizer has none: a mark that no text holds, and the
/// number.
pub open spec fn filler(i: nat) -> Seq<u8> {
    seq![0xffu8, 0x3c, 0x5b] + decimal(i).map_values(|c: char| c as u8) + seq![0x5du8, 0x3e]
}

/// `words`, filled up to `vocab`.
pub open spec fn padded(words: Seq<Seq<u8>>, vocab: nat) -> Seq<Seq<u8>> {
    Seq::new(
        vocab,
        |i: int|
            if i < words.len() {
                words[i]
            } else {
                filler(i as nat)
            },
    )
}

/// What a trie can hold: words of at most 1024 bytes, none of them token 16777215 or a later one, and
/// fewer than 4194304 nodes. A trie of no words has one node; a word adds a node for each of its prefixes
/// that was not there, and one for itself where it was there before.
pub proof fn law_trie_fits(words: Seq<Seq<u8>>, w: Seq<u8>, p: Seq<u8>)
    ensures
        trie_fits(words) <==> prefixes(words).len() + repeats(words) < 4_194_304 && forall|i: int|
            0 <= i < words.len() ==> (#[trigger] words[i]).len() <= 1024 && (i < 16_777_215
                || words[i].len() == 0),
        prefixes(words).contains(Seq::empty()),
        prefixes(words.push(w)).contains(p) <==> prefixes(words).contains(p) || exists|k: int|
            0 <= k <= w.len() && p == #[trigger] w.take(k),
        p.len() > 0 ==> !prefixes(Seq::empty()).contains(p),
        repeats(Seq::empty()) == 0,
        repeats(words.push(w)) == repeats(words) + if w.len() > 0 && words.contains(w) {
            1int
        } else {
            0int
        },
{
    lemma_prefix_push(words, w, p);
    assert(words.push(w).drop_last() =~= words);
    if begins(w, p) {
        assert(p == w.take(p.len() as int));
    }
    if exists|k: int| 0 <= k <= w.len() && p == #[trigger] w.take(k) {
        let k = choose|k: int| 0 <= k <= w.len() && p == #[trigger] w.take(k);
        assert(p.len() == k);
    }
}

/// A filled-up list keeps its words in their places and is as long as the vocabulary. What stands in a
/// place that was empty is the byte 255, then the place's number in pointed and square brackets: no text in
/// UTF-8 holds it, and no two places share it.
pub proof fn law_padded(words: Seq<Seq<u8>>, vocab: nat, i: int)
    requires
        words.len() <= vocab,
        0 <= i < vocab,
    ensures
        padded(words, vocab).len() == vocab,
        i < words.len() ==> padded(words, vocab)[i] == words[i],
        i >= words.len() ==> {
            let w = padded(words, vocab)[i];
            let n = decimal(i as nat).len() as int;
            &&& w.len() == n + 5
            &&& w[0] == 255 && w[1] == '<' as u8 && w[2] == '[' as u8
            &&& forall|k: int|
                0 <= k < n ==> #[trigger] w[3 + k] as int == decimal(i as nat)[k] as int
            &&& w[3 + n] == ']' as u8 && w[4 + n] == '>' as u8
        },
        digits_value(decimal(i as nat), 10) == i,
{
    law_decimal(i as nat);
    if i >= words.len() {
        let w = filler(i as nat);
        let d = decimal(i as nat);
        assert forall|k: int| 0 <= k < d.len() implies #[trigger] w[3 + k] as int
            == d[k] as int by {
            assert('0' <= d[k] <= '9');
            assert(w[3 + k] == d[k] as u8);
        }
    }
}

/// Appends `n` in decimal.
fn push_digits(out: &mut Vec<u8>, n: usize)
    ensures
        final(out)@ == old(out)@ + decimal(n as nat).map_values(|c: char| c as u8),
    decreases n,
{
    if n >= 10 {
        push_digits(out, n / 10);
    }
    let d: u8 = (n % 10) as u8;
    out.push(0x30 + d);
    proof {
        assert(digit(d as nat) as u8 == 0x30 + d);
        let f = |c: char| c as u8;
        if n >= 10 {
            assert(decimal(n as nat).map_values(f) =~= decimal((n / 10) as nat).map_values(f).push(
                (0x30 + d) as u8,
            ));
        } else {
            assert(decimal(n as nat).map_values(f) =~= seq![(0x30 + d) as u8]);
        }
        assert(out@ =~= old(out)@ + decimal(n as nat).map_values(f));
    }
}

fn filler_word(i: usize) -> (r: Vec<u8>)
    ensures
        r@ == filler(i as nat),
{
    let mut w: Vec<u8> = Vec::new();
    w.push(0xff);
    w.push(0x3c);
    w.push(0x5b);
    push_digits(&mut w, i);
    w.push(0x5d);
    w.push(0x3e);
    assert(w@ =~= filler(i as nat));
    w
}

proof fn lemma_prefix_push(words: Seq<Seq<u8>>, w: Seq<u8>, p: Seq<u8>)
    ensures
        is_prefix(words.push(w), p) <==> is_prefix(words, p) || begins(w, p),
{
    let all = words.push(w);
    if is_prefix(words, p) && p.len() > 0 {
        let i = choose|i: int| 0 <= i < words.len() && #[trigger] begins(words[i], p);
        assert(begins(all[i], p));
    }
    if begins(w, p) {
        assert(begins(all[words.len() as int], p));
    }
    if is_prefix(all, p) && p.len() > 0 {
        let i = choose|i: int| 0 <= i < all.len() && #[trigger] begins(all[i], p);
        if i < words.len() {
            assert(begins(words[i], p));
        }
    }
}

/// One more byte of a word gives one more prefix.
proof fn lemma_begins_step(w: Seq<u8>, k: int, p: Seq<u8>)
    requires
        0 <= k < w.len(),
    ensures
        begins(w.take(k + 1), p) <==> begins(w.take(k), p) || p == w.take(k + 1),
{
    if p.len() <= k {
        assert(w.take(k + 1).take(p.len() as int) =~= w.take(k).take(p.len() as int));
    } else if p.len() == k + 1 {
        assert(w.take(k + 1).take(k + 1) =~= w.take(k + 1));
    }
}

/// The prefixes of some words, as a tree.
struct PrefixTree {
    /// For each node, the nodes below it and the byte that leads to each.
    children: Vec<Vec<(u8, usize)>>,
    /// For each node, whether one of the words ends there.
    ended: Vec<bool>,
    /// For each node, the bytes that lead to it.
    paths: Ghost<Seq<Seq<u8>>>,
    /// For each node, the node above it, and where it stands among the nodes below that one.
    above: Ghost<Seq<(int, int)>>,
}

impl PrefixTree {
    spec fn wf(&self) -> bool {
        let n = self.paths@.len();
        &&& self.children@.len() == n
        &&& self.ended@.len() == n
        &&& self.above@.len() == n
        &&& n > 0
        &&& self.paths@[0] == Seq::<u8>::empty()
        &&& self.paths@.no_duplicates()
        &&& forall|i: int, e: int|
            #![trigger self.children@[i]@[e]]
            0 <= i < n && 0 <= e < self.children@[i]@.len() ==> {
                let c = self.children@[i]@[e];
                &&& c.1 < n
                &&& self.paths@[c.1 as int] == self.paths@[i].push(c.0)
            }
        &&& forall|j: int|
            1 <= j < n ==> {
                let (i, e) = #[trigger] self.above@[j];
                &&& 0 <= i < n
                &&& 0 <= e < self.children@[i]@.len()
                &&& self.children@[i]@[e].1 == j
            }
    }

    /// Whether the tree is that of `words`.
    spec fn holds(&self, words: Seq<Seq<u8>>) -> bool {
        &&& forall|p: Seq<u8>| self.paths@.contains(p) <==> #[trigger] is_prefix(words, p)
        &&& forall|j: int|
            1 <= j < self.paths@.len() ==> (#[trigger] self.ended@[j] <==> words.contains(
                self.paths@[j],
            ))
    }

    fn new() -> (r: PrefixTree)
        ensures
            r.wf(),
            r.holds(Seq::empty()),
    {
        let mut children: Vec<Vec<(u8, usize)>> = Vec::new();
        children.push(Vec::new());
        let mut ended: Vec<bool> = Vec::new();
        ended.push(false);
        let ghost root = Seq::<u8>::empty();
        let ghost first = seq![root];
        let ghost none = seq![(0int, 0int)];
        let r = PrefixTree { children, ended, paths: Ghost(first), above: Ghost(none) };
        proof {
            assert forall|p: Seq<u8>| r.paths@.contains(p) <==> #[trigger] is_prefix(
                Seq::empty(),
                p,
            ) by {
                assert(r.paths@[0] == root);
                if p.len() == 0 {
                    assert(p =~= root);
                }
            }
        }
        r
    }

    /// The node below `node` to which `byte` leads.
    fn child(&self, node: usize, byte: u8) -> (r: Option<usize>)
        requires
            self.wf(),
            node < self.paths@.len(),
        ensures
            match r {
                Some(c) => c < self.paths@.len() && self.paths@[c as int]
                    == self.paths@[node as int].push(byte),
                None => !self.paths@.contains(self.paths@[node as int].push(byte)),
            },
    {
        let list = &self.children[node];
        let mut e: usize = 0;
        while e < list.len()
            invariant
                self.wf(),
                node < self.paths@.len(),
                *list == self.children@[node as int],
                e <= list@.len(),
                forall|k: int| 0 <= k < e ==> (#[trigger] list@[k]).0 != byte,
            decreases list.len() - e,
        {
            if list[e].0 == byte {
                assert(self.children@[node as int]@[e as int].0 == byte);
                return Some(list[e].1);
            }
            e += 1;
        }
        proof {
            let p = self.paths@[node as int].push(byte);
            if self.paths@.contains(p) {
                let j = choose|j: int| 0 <= j < self.paths@.len() && self.paths@[j] == p;
                assert(p.len() > 0);
                let (i, k) = self.above@[j];
                let c = self.children@[i]@[k];
                assert(self.paths@[i].push(c.0) == p);
                assert(self.paths@[i] =~= p.drop_last());
                assert(self.paths@[node as int] =~= p.drop_last());
                assert(i == node);
                assert(c.0 == p.last());
                assert(list@[k].0 == byte);
            }
        }
        None
    }

    /// Puts a node below `node`.
    fn grow(&mut self, node: usize, byte: u8) -> (r: usize)
        requires
            old(self).wf(),
            node < old(self).paths@.len(),
            !old(self).paths@.contains(old(self).paths@[node as int].push(byte)),
        ensures
            final(self).wf(),
            r == old(self).paths@.len(),
            final(self).paths@ == old(self).paths@.push(old(self).paths@[node as int].push(byte)),
            final(self).ended@ == old(self).ended@.push(false),
    {
        let c: usize = self.children.len();
        let ghost p = self.paths@[node as int].push(byte);
        let ghost at = self.children@[node as int]@.len() as int;
        self.children[node].push((byte, c));
        self.children.push(Vec::new());
        self.ended.push(false);
        self.paths = Ghost(self.paths@.push(p));
        self.above = Ghost(self.above@.push((node as int, at)));
        proof {
            assert forall|i: int, j: int|
                0 <= i < self.paths@.len() && 0 <= j < self.paths@.len() && i != j implies
                self.paths@[i] != self.paths@[j] by {
                if i == c {
                    assert(old(self).paths@.contains(old(self).paths@[j]));
                } else if j == c {
                    assert(old(self).paths@.contains(old(self).paths@[i]));
                }
            }
            assert forall|i: int, e: int|
                #![trigger self.children@[i]@[e]]
                0 <= i < self.paths@.len() && 0 <= e < self.children@[i]@.len() implies {
                let d = self.children@[i]@[e];
                &&& d.1 < self.paths@.len()
                &&& self.paths@[d.1 as int] == self.paths@[i].push(d.0)
            } by {
                if i < c && !(i == node && e == at) {
                    assert(self.children@[i]@[e] == old(self).children@[i]@[e]);
                }
            }
            assert forall|j: int| 1 <= j < self.paths@.len() implies {
                let (i, e) = #[trigger] self.above@[j];
                &&& 0 <= i < self.paths@.len()
                &&& 0 <= e < self.children@[i]@.len()
                &&& self.children@[i]@[e].1 == j
            } by {
                if j < c {
                    assert(self.above@[j] == old(self).above@[j]);
                    let (i, e) = old(self).above@[j];
                    assert(self.children@[i]@[e] == old(self).children@[i]@[e]);
                }
            }
        }
        c
    }

    /// Puts a word in, and tells whether it was there. `words` are those so far.
    fn insert(&mut self, word: &Vec<u8>, Ghost(words): Ghost<Seq<Seq<u8>>>) -> (r: bool)
        requires
            old(self).wf(),
            old(self).holds(words),
        ensures
            final(self).wf(),
            final(self).holds(words.push(word@)),
            r == (word@.len() > 0 && words.contains(word@)),
    {
        let mut node: usize = 0;
        let mut k: usize = 0;
        proof {
            assert(word@.take(0) =~= Seq::empty());
            assert forall|p: Seq<u8>| self.paths@.contains(p) <==> #[trigger] is_prefix(
                words.push(word@.take(0)),
                p,
            ) by {
                lemma_prefix_push(words, word@.take(0), p);
                assert(self.paths@.contains(p) <==> is_prefix(words, p));
            }
        }
        while k < word.len()
            invariant
                self.wf(),
                k <= word@.len(),
                node < self.paths@.len(),
                self.paths@[node as int] == word@.take(k as int),
                forall|p: Seq<u8>| self.paths@.contains(p) <==> #[trigger] is_prefix(
                    words.push(word@.take(k as int)),
                    p,
                ),
                forall|j: int|
                    1 <= j < self.paths@.len() ==> (#[trigger] self.ended@[j] <==> words.contains(
                        self.paths@[j],
                    )),
            decreases word.len() - k,
        {
            let ghost before = *self;
            let ghost here = word@.take(k as int);
            let ghost next = word@.take(k + 1);
            assert(here.push(word@[k as int]) =~= next);
            node = match self.child(node, word[k]) {
                Some(c) => c,
                None => self.grow(node, word[k]),
            };
            proof {
                assert forall|p: Seq<u8>| self.paths@.contains(p) <==> (before.paths@.contains(p) || p
                    == next) by {
                    if before.paths@.contains(p) {
                        let j = choose|j: int|
                            0 <= j < before.paths@.len() && before.paths@[j] == p;
                        assert(self.paths@[j] == p);
                    }
                    if p == next {
                        assert(self.paths@[node as int] == p);
                    }
                    if self.paths@.contains(p) {
                        let j = choose|j: int| 0 <= j < self.paths@.len() && self.paths@[j] == p;
                        if j < before.paths@.len() {
                            assert(before.paths@[j] == p);
                        }
                    }
                }
                assert forall|p: Seq<u8>| self.paths@.contains(p) <==> #[trigger] is_prefix(
                    words.push(next),
                    p,
                ) by {
                    lemma_prefix_push(words, here, p);
                    lemma_prefix_push(words, next, p);
                    lemma_begins_step(word@, k as int, p);
                    assert(before.paths@.contains(p) <==> is_prefix(words.push(here), p));
                }
                assert forall|j: int| 1 <= j < self.paths@.len() implies (#[trigger] self.ended@[j]
                    <==> words.contains(self.paths@[j])) by {
                    if j < before.paths@.len() {
                        assert(self.paths@[j] == before.paths@[j]);
                        assert(self.ended@[j] == before.ended@[j]);
                    } else if words.contains(next) {
                        let i = choose|i: int| 0 <= i < words.len() && words[i] == next;
                        assert(next.take(next.len() as int) =~= next);
                        assert(begins(words[i], next));
                        lemma_prefix_push(words, here, next);
                        assert(is_prefix(words.push(here), next));
                    }
                }
            }
            k += 1;
        }
        assert(word@.take(k as int) =~= word@);
        let ghost before = *self;
        let was = self.ended[node];
        if word.len() > 0 {
            self.ended.set(node, true);
        }
        proof {
            assert(self.paths == before.paths);
            assert forall|j: int| 1 <= j < self.paths@.len() implies (#[trigger] self.ended@[j] <==> words.push(
                word@,
            ).contains(self.paths@[j])) by {
                let all = words.push(word@);
                let p = self.paths@[j];
                assert(p != self.paths@[0]);
                assert(before.ended@[j] <==> words.contains(p));
                if words.contains(p) {
                    let i = choose|i: int| 0 <= i < words.len() && words[i] == p;
                    assert(all[i] == p);
                }
                if p == word@ {
                    assert(all[words.len() as int] == p);
                    assert(j == node);
                }
                if all.contains(p) {
                    let i = choose|i: int| 0 <= i < all.len() && all[i] == p;
                    if i < words.len() {
                        assert(words[i] == p);
                    }
                }
            }
            if word@.len() > 0 {
                assert(node >= 1);
                assert(before.ended@[node as int] <==> words.contains(word@));
            }
        }
        was && word.len() > 0
    }
}

/// Whether a trie can hold `words`.
pub fn words_fit(words: &Vec<Vec<u8>>) -> (r: bool)
    ensures
        r == trie_fits(texts(words@)),
{
    let ghost all = texts(words@);
    let mut tree = PrefixTree::new();
    let mut again: usize = 0;
    let mut i: usize = 0;
    assert(all.take(0) =~= Seq::empty());
    while i < words.len()
        invariant
            i <= words@.len(),
            all == texts(words@),
            tree.wf(),
            tree.holds(all.take(i as int)),
            again == repeats(all.take(i as int)),
            again <= i,
            forall|k: int| 0 <= k < i ==> (#[trigger] all[k]).len() <= MAX_WORD_BYTES,
            forall|k: int| MAX_TOKENS <= k < i ==> (#[trigger] all[k]).len() == 0,
        decreases words.len() - i,
    {
        let w = &words[i];
        assert(all[i as int] == w@);
        if w.len() > MAX_WORD_BYTES || (w.len() > 0 && i >= MAX_TOKENS) {
            return false;
        }
        let ghost before = all.take(i as int);
        let ghost after = all.take(i + 1);
        assert(after =~= before.push(w@));
        assert(after.drop_last() =~= before);
        if tree.insert(w, Ghost(before)) {
            again += 1;
        }
        i += 1;
    }
    proof {
        assert(all.take(i as int) =~= all);
        assert(tree.paths@.to_set() =~= prefixes(all));
        tree.paths@.unique_seq_to_set();
    }
    tree.children.len() < MAX_NODES && again < MAX_NODES - tree.children.len()
}

/// Fills `words` up to `vocab`.
fn fill(words: &mut Vec<Vec<u8>>, vocab: usize)
    requires
        old(words)@.len() <= vocab,
    ensures
        texts(final(words)@) == padded(texts(old(words)@), vocab as nat),
{
    let ghost given = texts(words@);
    assert(texts(words@) =~= padded(given, given.len()));
    while words.len() < vocab
        invariant
            given.len() <= words@.len() <= vocab,
            texts(words@) == padded(given, words@.len()),
        decreases vocab - words.len(),
    {
        let ghost before = words@;
        let w = filler_word(words.len());
        words.push(w);
        assert(texts(words@) =~= texts(before).push(w@));
        assert(texts(words@) =~= padded(given, words@.len()));
    }
}

/// Whether a trie can hold `words` filled up to `vocab`.
pub fn padded_fits(words: Vec<Vec<u8>>, vocab: usize) -> (r: bool)
    requires
        words@.len() <= vocab,
    ensures
        r == trie_fits(padded(texts(words@), vocab as nat)),
{
    let ghost given = texts(words@);
    if words.len() < vocab && vocab > MAX_TOKENS {
        proof {
            let last = vocab - 1;
            assert(padded(given, vocab as nat)[last] == filler(last as nat));
            assert(filler(last as nat).len() > 0);
        }
        return false;
    }
    let mut all = words;
    fill(&mut all, vocab);
    words_fit(&all)
}

} // verus!
