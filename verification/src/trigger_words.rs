//! The list of trigger words kept in memory beside the answers database.

use vstd::prelude::*;
use crate::text::{contains, str_contains, views};
use crate::message::list_contains;

verus! {

/// No word occurs twice in the list.
pub open spec fn no_duplicates(words: Seq<Seq<char>>) -> bool {
    forall|i: int, j: int| 0 <= i < j < words.len() ==> words[i] != words[j]
}

/// The list with `word` added at the end unless it is already there.
pub open spec fn with_word(words: Seq<Seq<char>>, word: Seq<char>) -> Seq<Seq<char>> {
    if words.contains(word) {
        words
    } else {
        words.push(word)
    }
}

/// The list that adding the words of `rows` in order to an empty list gives:
/// each word once, at the place of its first occurrence.
pub open spec fn distinct_words(rows: Seq<Seq<char>>) -> Seq<Seq<char>>
    decreases rows.len(),
{
    if rows.len() == 0 {
        Seq::empty()
    } else {
        with_word(distinct_words(rows.drop_last()), rows.last())
    }
}

/// Adding a word keeps a list free of duplicates and makes it hold the word.
pub proof fn lemma_with_word_distinct(words: Seq<Seq<char>>, word: Seq<char>)
    ensures
        no_duplicates(words) ==> no_duplicates(with_word(words, word)),
        with_word(words, word).contains(word),
        forall|w: Seq<char>| words.contains(w) ==> with_word(words, word).contains(w),
{
    if !words.contains(word) {
        let r = words.push(word);
        assert(r[words.len() as int] == word);
        if no_duplicates(words) {
            assert forall|i: int, j: int| 0 <= i < j < r.len() implies r[i] != r[j] by {
                if j == words.len() {
                    assert(r[i] == words[i]);
                }
            }
        }
        assert forall|w: Seq<char>| words.contains(w) implies r.contains(w) by {
            let k = choose|k: int| 0 <= k < words.len() && words[k] == w;
            assert(r[k] == w);
        }
    }
}

/// A word is among the distinct words of the rows exactly when some row holds
/// it.
pub proof fn lemma_distinct_words_contains(rows: Seq<Seq<char>>, w: Seq<char>)
    ensures
        distinct_words(rows).contains(w) <==> rows.contains(w),
    decreases rows.len(),
{
    if rows.len() > 0 {
        let init = rows.drop_last();
        lemma_distinct_words_contains(init, w);
        lemma_with_word_distinct(distinct_words(init), rows.last());
        let d = distinct_words(init);
        if rows.contains(w) {
            let k = choose|k: int| 0 <= k < rows.len() && rows[k] == w;
            if k < init.len() {
                assert(init[k] == w);
            }
        }
        if init.contains(w) {
            let k = choose|k: int| 0 <= k < init.len() && init[k] == w;
            assert(rows[k] == w);
        }
        if distinct_words(rows).contains(w) && !d.contains(w) {
            assert(!d.contains(rows.last()));
            let r = d.push(rows.last());
            let k = choose|k: int| 0 <= k < r.len() && r[k] == w;
            if k < d.len() {
                assert(d[k] == w);
            }
            assert(rows[rows.len() - 1] == w);
        }
    }
}

/// Adds `word_to_add` to the list of trigger words unless it is there.
pub fn add_trigger_word(trigger_word_list: &mut Vec<String>, word_to_add: String)
    ensures
        views(final(trigger_word_list)@) == with_word(views(old(trigger_word_list)@), word_to_add@),
        views(final(trigger_word_list)@).contains(word_to_add@),
        no_duplicates(views(old(trigger_word_list)@)) ==> no_duplicates(views(final(trigger_word_list)@)),
{
    proof {
        lemma_with_word_distinct(views(trigger_word_list@), word_to_add@);
    }
    if !list_contains(trigger_word_list, &word_to_add) {
        let ghost before = views(trigger_word_list@);
        let ghost w = word_to_add@;
        trigger_word_list.push(word_to_add);
        assert(views(trigger_word_list@) =~= before.push(w));
    }
}

/// The trigger words read from the database rows, each kept once, in the
/// order of their first row.
pub fn load_trigger_words(rows: Vec<String>) -> (trigger_word_list: Vec<String>)
    ensures
        views(trigger_word_list@) == distinct_words(views(rows@)),
        no_duplicates(views(trigger_word_list@)),
        forall|w: Seq<char>| views(trigger_word_list@).contains(w) <==> views(rows@).contains(w),
{
    let mut trigger_word_list: Vec<String> = Vec::new();
    let n = rows.len();
    let mut i: usize = 0;
    while i < n
        invariant
            n == rows@.len(),
            i <= n,
            views(trigger_word_list@) == distinct_words(views(rows@).take(i as int)),
            no_duplicates(views(trigger_word_list@)),
        decreases n - i,
    {
        let ghost all = views(rows@);
        assert(all.take(i + 1).drop_last() =~= all.take(i as int));
        assert(all.take(i + 1).last() == rows@[i as int]@);
        proof {
            lemma_with_word_distinct(views(trigger_word_list@), rows@[i as int]@);
        }
        add_trigger_word(&mut trigger_word_list, rows[i].clone());
        i = i + 1;
    }
    assert(views(rows@).take(n as int) =~= views(rows@));
    assert forall|w: Seq<char>| views(trigger_word_list@).contains(w) <==> views(rows@).contains(w) by {
        lemma_distinct_words_contains(views(rows@), w);
    }
    trigger_word_list
}

/// The list without `word`.
pub open spec fn without_word(words: Seq<Seq<char>>, word: Seq<char>) -> Seq<Seq<char>> {
    words.filter(|w: Seq<char>| w != word)
}

/// Removes every occurrence of `word_to_del` from the list of trigger words.
pub fn remove_trigger_word(trigger_word_list: &mut Vec<String>, word_to_del: &String)
    ensures
        views(final(trigger_word_list)@) == without_word(views(old(trigger_word_list)@), word_to_del@),
        !views(final(trigger_word_list)@).contains(word_to_del@),
{
    let ghost all = views(trigger_word_list@);
    let mut kept: Vec<String> = Vec::new();
    let n = trigger_word_list.len();
    let mut i: usize = 0;
    while i < n
        invariant
            n == trigger_word_list@.len(),
            all == views(trigger_word_list@),
            i <= n,
            views(kept@) == without_word(all.take(i as int), word_to_del@),
        decreases n - i,
    {
        assert(all.take(i + 1).drop_last() =~= all.take(i as int));
        assert(all.take(i + 1).last() == trigger_word_list@[i as int]@);
        reveal_with_fuel(Seq::filter, 1);
        if !(trigger_word_list[i] == *word_to_del) {
            let ghost before = views(kept@);
            kept.push(trigger_word_list[i].clone());
            assert(views(kept@) =~= before.push(all[i as int]));
        }
        i = i + 1;
    }
    assert(all.take(n as int) =~= all);
    proof {
        let r = without_word(all, word_to_del@);
        if r.contains(word_to_del@) {
            let k = choose|k: int| 0 <= k < r.len() && r[k] == word_to_del@;
            broadcast use vstd::seq_lib::group_filter_ensures;
            assert(r[k] != word_to_del@);
        }
    }
    *trigger_word_list = kept;
}

/// `index` is the first position of the list whose word occurs in `phrase`.
pub open spec fn is_first_trigger(phrase: Seq<char>, words: Seq<Seq<char>>, index: int) -> bool {
    &&& 0 <= index < words.len()
    &&& contains(phrase, words[index])
    &&& forall|j: int| 0 <= j < index ==> !contains(phrase, #[trigger] words[j])
}

/// The first trigger word of the list that occurs in `phrase`, if any.
pub fn find_trigger(phrase: &String, trigger_word_list: &Vec<String>) -> (r: Option<String>)
    ensures
        match r {
            Some(w) => exists|k: int| is_first_trigger(phrase@, views(trigger_word_list@), k)
                && views(trigger_word_list@)[k] == w@,
            None => forall|j: int| 0 <= j < trigger_word_list@.len()
                ==> !contains(phrase@, #[trigger] views(trigger_word_list@)[j]),
        },
{
    let ghost all = views(trigger_word_list@);
    let n = trigger_word_list.len();
    let mut i: usize = 0;
    while i < n
        invariant
            n == trigger_word_list@.len(),
            all == views(trigger_word_list@),
            i <= n,
            forall|j: int| 0 <= j < i ==> !contains(phrase@, #[trigger] all[j]),
        decreases n - i,
    {
        assert(all[i as int] == trigger_word_list@[i as int]@);
        if str_contains(phrase.as_str(), trigger_word_list[i].as_str()) {
            assert(is_first_trigger(phrase@, all, i as int));
            return Some(trigger_word_list[i].clone());
        }
        i = i + 1;
    }
    None
}

} // verus!
