//! Word rows: vocabulary tokens, created lazily as new tokens are seen and
//! looked up on every later encounter, so the same text never gets two rows.

use vstd::prelude::*;
use crate::db::store::Store;
use crate::db::store::StoreModel;
use crate::db::store::WordModel;
use crate::db::store::has_word;
use crate::db::store::lemma_words_model_push;
use crate::db::store::spec_create_word;
use crate::db::store::word_index;
use crate::db::store::words_model;

verus! {

/// A word row: store-assigned surrogate id and unique text.
#[derive(Debug, PartialEq)]
pub struct Word {
    pub id: i32,
    pub word: String,
}

impl Word {
    pub open spec fn model(self) -> WordModel {
        WordModel { id: self.id as int, word: self.word@ }
    }
}

impl Default for Word {
    fn default() -> (r: Word)
        ensures
            r.model() == (WordModel { id: 0, word: Seq::<char>::empty() }),
    {
        Word { id: 0, word: String::new() }
    }
}

impl Clone for Word {
    fn clone(&self) -> (r: Self)
        ensures
            r == *self,
    {
        Word { id: self.id, word: self.word.clone() }
    }
}

/// `word_index` finds a match exactly where one exists: it lands on the first
/// matching index and is -1 only when no row matches.
pub proof fn lemma_word_index_spec(words: Seq<WordModel>, text: Seq<char>)
    ensures
        -1 <= word_index(words, text) < words.len(),
        word_index(words, text) >= 0 ==> words[word_index(words, text)].word == text,
        word_index(words, text) == -1 ==> forall|m: int|
            0 <= m < words.len() ==> words[m].word != text,
        forall|m: int| 0 <= m < word_index(words, text) ==> words[m].word != text,
    decreases words.len(),
{
    if words.len() > 0 && words[0].word != text {
        lemma_word_index_spec(words.skip(1), text);
        let sub = words.skip(1);
        assert(forall|m: int| 0 <= m < sub.len() ==> sub[m] == words[m + 1]);
        if word_index(words, text) == -1 {
            assert forall|m: int| 0 <= m < words.len() implies words[m].word != text by {
                if m >= 1 {
                    assert(sub[m - 1] == words[m]);
                }
            }
        }
        assert forall|m: int| 0 <= m < word_index(words, text) implies words[m].word
            != text by {
            if m >= 1 {
                assert(sub[m - 1] == words[m]);
            }
        }
    }
}

/// Appending a row with an absent text puts its first occurrence at the end.
pub proof fn lemma_word_index_push(words: Seq<WordModel>, w: WordModel)
    requires
        !has_word(words, w.word),
    ensures
        word_index(words.push(w), w.word) == words.len(),
    decreases words.len(),
{
    lemma_word_index_spec(words, w.word);
    if words.len() == 0 {
        assert(words.push(w)[0] == w);
    } else {
        assert(words.push(w)[0] == words[0]);
        assert(words.push(w).skip(1) =~= words.skip(1).push(w));
        assert(!has_word(words.skip(1), w.word)) by {
            lemma_word_index_spec(words.skip(1), w.word);
            if has_word(words.skip(1), w.word) {
                let r = word_index(words.skip(1), w.word);
                assert(words.skip(1)[r].word == w.word);
                assert(words.skip(1)[r] == words[r + 1]);
            }
        }
        lemma_word_index_push(words.skip(1), w);
    }
}

/// Get-or-create is idempotent: resolving the same text twice returns the
/// same row both times and never adds a second row, whether the first call
/// found the text, created it, or failed for want of ids.
pub proof fn lemma_create_word_idempotent(s: StoreModel, text: Seq<char>)
    ensures
        spec_create_word(spec_create_word(s, text).0, text).0 == spec_create_word(s, text).0,
        spec_create_word(spec_create_word(s, text).0, text).1 == spec_create_word(s, text).1,
{
    lemma_word_index_spec(s.words, text);
    if !has_word(s.words, text) && s.words.len() < i32::MAX {
        let w = WordModel { id: s.words.len() as int + 1, word: text };
        lemma_word_index_push(s.words, w);
        assert(s.words.push(w)[words_len_int(s.words)] == w);
    }
}

spec fn words_len_int(words: Seq<WordModel>) -> int {
    words.len() as int
}

/// Looks a word up by text; returns the first stored row with that text.
pub fn get_word<'a>(conn: &Store, w: &'a str) -> (r: Option<Word>)
    ensures
        !has_word(conn.model().words, w@) ==> r is None,
        has_word(conn.model().words, w@) ==> (r matches Some(word) && word.model()
            == conn.model().words[word_index(conn.model().words, w@)]),
{
    let needle = w.to_owned();
    let len = conn.words.len();
    let ghost wm = conn.model().words;
    let mut i: usize = 0;
    while i < len
        invariant
            0 <= i <= len,
            len == conn.words@.len(),
            wm == conn.model().words,
            needle@ == w@,
            forall|m: int| 0 <= m < i ==> wm[m].word != w@,
        decreases len - i,
    {
        if conn.words[i].word == needle {
            proof {
                assert(wm[i as int].word == w@);
                lemma_word_index_spec(wm, w@);
                assert(word_index(wm, w@) == i as int) by {
                    if word_index(wm, w@) != i as int {
                        assert(word_index(wm, w@) < i as int);
                        assert(wm[word_index(wm, w@)].word == w@);
                    }
                }
            }
            return Some(conn.words[i].clone());
        }
        i = i + 1;
    }
    proof {
        lemma_word_index_spec(wm, w@);
        if has_word(wm, w@) {
            assert(wm[word_index(wm, w@)].word == w@);
        }
    }
    None
}

/// Resolves or creates the word row for this text. An existing text is
/// returned unchanged; a new text is appended under the next id; the one
/// failure, id exhaustion, changes nothing and yields `None`.
pub fn create_word<'a>(conn: &mut Store, w: &'a str) -> (r: Option<Word>)
    requires
        old(conn).wf(),
    ensures
        final(conn).wf(),
        final(conn).model() == spec_create_word(old(conn).model(), w@).0,
        match r {
            Some(word) => spec_create_word(old(conn).model(), w@).1 == Some(word.model()),
            None => spec_create_word(old(conn).model(), w@).1 is None,
        },
{
    let ghost s0 = conn.model();
    match get_word(conn, w) {
        Some(word) => Some(word),
        None => {
            proof {
                lemma_word_index_spec(s0.words, w@);
            }
            if conn.words.len() < (i32::MAX as usize) {
                let id = (conn.words.len() as i32) + 1;
                let word = Word { id, word: w.to_owned() };
                let ghost wm = word.model();
                proof {
                    lemma_words_model_push(conn.words@, word);
                }
                conn.words.push(word.clone());
                proof {
                    assert(conn.model().words =~= s0.words.push(wm));
                    assert(conn.model().kinds =~= s0.kinds);
                    assert(conn.model().vectors =~= s0.vectors);
                    assert(conn.model() == spec_create_word(s0, w@).0);
                    assert(conn.wf()) by {
                        let ws = conn.model().words;
                        assert forall|i: int| 0 <= i < ws.len() implies (#[trigger] ws[i]).id == i
                            + 1 by {
                            if i < s0.words.len() {
                                assert(ws[i] == s0.words[i]);
                            }
                        }
                        assert forall|i: int, j: int| 0 <= i < j < ws.len() implies ws[i].word
                            != ws[j].word by {
                            if j < s0.words.len() {
                                assert(ws[i] == s0.words[i] && ws[j] == s0.words[j]);
                            } else {
                                assert(ws[i] == s0.words[i] && ws[j] == wm);
                            }
                        }
                    }
                }
                Some(word)
            } else {
                None
            }
        },
    }
}

/// Every stored word row, in insertion order.
pub fn words_list(conn: &Store) -> (r: Option<Vec<Word>>)
    ensures
        r matches Some(v) && words_model(v@) == conn.model().words,
{
    let mut out: Vec<Word> = Vec::new();
    let len = conn.words.len();
    let mut i: usize = 0;
    while i < len
        invariant
            0 <= i <= len,
            len == conn.words@.len(),
            out@.len() == i,
            forall|m: int| 0 <= m < i ==> out@[m] == conn.words@[m],
        decreases len - i,
    {
        out.push(conn.words[i].clone());
        i = i + 1;
    }
    proof {
        assert(words_model(out@) =~= conn.model().words);
    }
    Some(out)
}

} // verus!
