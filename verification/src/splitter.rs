//! The splitter: breaks raw source text into an ordered sequence of words.
//!
//! A word is a maximal run of characters of one class, scanned left to right:
//! punctuation characters each form runs of themselves (so `::` is one word),
//! and every other non-whitespace character joins an ordinary word run.
//! Whitespace is a pure separator and produces no word.

use vstd::prelude::*;

use crate::chars::is_punct;
use crate::chars::is_space;
use crate::chars::is_word_char;
use crate::chars::punct_char;
use crate::chars::space_char;

verus! {

/// `c` continues a run whose first character is `c0`: identical punctuation,
/// or any ordinary word character.
pub open spec fn same_class(c0: char, c: char) -> bool {
    if is_punct(c0) {
        c == c0
    } else {
        is_word_char(c)
    }
}

/// Decide `same_class` on concrete characters.
pub fn same_class_char(c0: char, c: char) -> (b: bool)
    ensures
        b == same_class(c0, c),
{
    if punct_char(c0) {
        c == c0
    } else {
        !space_char(c) && !punct_char(c)
    }
}

/// The length of the maximal run at the front of `s` that continues a word
/// begun by `c0`.
pub open spec fn run_len(s: Seq<char>, c0: char) -> nat
    decreases s.len(),
{
    if s.len() > 0 && same_class(c0, s[0]) {
        1 + run_len(s.skip(1), c0)
    } else {
        0
    }
}

/// A run never extends past the end of the text.
pub proof fn lemma_run_len_le(s: Seq<char>, c0: char)
    ensures
        run_len(s, c0) <= s.len(),
    decreases s.len(),
{
    if s.len() > 0 && same_class(c0, s[0]) {
        lemma_run_len_le(s.skip(1), c0);
    }
}

/// Every character inside the run continues it, and the run is maximal.
pub proof fn lemma_run_len_chars(s: Seq<char>, c0: char)
    ensures
        forall|m: int| 0 <= m < run_len(s, c0) ==> same_class(c0, #[trigger] s[m]),
        run_len(s, c0) < s.len() ==> !same_class(c0, s[run_len(s, c0) as int]),
    decreases s.len(),
{
    if s.len() > 0 && same_class(c0, s[0]) {
        lemma_run_len_le(s, c0);
        lemma_run_len_chars(s.skip(1), c0);
        assert forall|m: int| 0 <= m < run_len(s, c0) implies same_class(c0, #[trigger] s[m]) by {
            if m > 0 {
                assert(s.skip(1)[m - 1] == s[m]);
            }
        }
        if run_len(s, c0) < s.len() {
            assert(s.skip(1)[run_len(s, c0) - 1] == s[run_len(s, c0) as int]);
        }
    }
}

/// A stretch of continuing characters closed off by the end of the text or a
/// character of another class is exactly the run.
pub proof fn lemma_run_len_of_stretch(s: Seq<char>, c0: char, k: int)
    requires
        0 <= k <= s.len(),
        forall|m: int| 0 <= m < k ==> same_class(c0, #[trigger] s[m]),
        k < s.len() ==> !same_class(c0, s[k]),
    ensures
        run_len(s, c0) == k,
    decreases s.len(),
{
    if k == 0 {
    } else {
        assert(same_class(c0, s[0]));
        assert forall|m: int| 0 <= m < k - 1 implies same_class(c0, #[trigger] s.skip(1)[m]) by {
            assert(s.skip(1)[m] == s[m + 1]);
        }
        assert(k - 1 < s.skip(1).len() ==> !same_class(c0, s.skip(1)[k - 1]));
        lemma_run_len_of_stretch(s.skip(1), c0, k - 1);
    }
}

/// The words of `s`, in source order: whitespace is skipped, and each
/// non-whitespace position starts a word that is the maximal run of its
/// class.
pub open spec fn split_spec(s: Seq<char>) -> Seq<Seq<char>>
    decreases s.len(),
    via split_spec_decreases
{
    if s.len() == 0 {
        Seq::empty()
    } else if is_space(s[0]) {
        split_spec(s.skip(1))
    } else {
        seq![s.take(run_len(s, s[0]) as int)] + split_spec(s.skip(run_len(s, s[0]) as int))
    }
}

#[via_fn]
proof fn split_spec_decreases(s: Seq<char>) {
    if s.len() > 0 && !is_space(s[0]) {
        lemma_run_len_le(s, s[0]);
        assert(same_class(s[0], s[0]));
        assert(run_len(s, s[0]) >= 1);
    }
}

/// The views of a sequence of owned words.
pub open spec fn word_views(ws: Seq<String>) -> Seq<Seq<char>> {
    Seq::new(ws.len(), |i: int| ws[i]@)
}

/// Pushing a word appends its view.
pub proof fn lemma_word_views_push(ws: Seq<String>, w: String)
    ensures
        word_views(ws.push(w)) =~= word_views(ws).push(w@),
{
}

/// `w` is one whole word as the splitter produces them: non-empty, started by
/// a non-whitespace character, and made of one run of that character's class.
pub open spec fn is_single_run(w: Seq<char>) -> bool {
    &&& w.len() > 0
    &&& !is_space(w[0])
    &&& forall|i: int| 0 <= i < w.len() ==> same_class(w[0], #[trigger] w[i])
}

/// Every word the splitter produces is a single maximal run.
pub proof fn lemma_split_words_are_single_runs(s: Seq<char>)
    ensures
        forall|i: int| 0 <= i < split_spec(s).len() ==> is_single_run(#[trigger] split_spec(s)[i]),
    decreases s.len(),
{
    if s.len() == 0 {
    } else if is_space(s[0]) {
        lemma_split_words_are_single_runs(s.skip(1));
        assert(split_spec(s) == split_spec(s.skip(1)));
    } else {
        let n = run_len(s, s[0]) as int;
        lemma_run_len_le(s, s[0]);
        assert(same_class(s[0], s[0]));
        assert(n >= 1);
        lemma_run_len_chars(s, s[0]);
        let w = s.take(n);
        assert forall|i: int| 0 <= i < w.len() implies same_class(w[0], #[trigger] w[i]) by {
            assert(w[i] == s[i]);
        }
        assert(is_single_run(w));
        lemma_split_words_are_single_runs(s.skip(n));
        assert(split_spec(s) == seq![w] + split_spec(s.skip(n)));
        assert forall|i: int| 0 <= i < split_spec(s).len() implies is_single_run(
            #[trigger] split_spec(s)[i],
        ) by {
            if i == 0 {
                assert(split_spec(s)[0] == w);
            } else {
                assert(split_spec(s)[i] == split_spec(s.skip(n))[i - 1]);
            }
        }
    }
}

/// Splitting one already-separated word gives back exactly that word: the
/// splitter is idempotent on its own output.
pub proof fn lemma_split_idempotent_on_word(w: Seq<char>)
    requires
        is_single_run(w),
    ensures
        split_spec(w) =~= seq![w],
{
    lemma_run_len_of_stretch(w, w[0], w.len() as int);
    assert(w.take(w.len() as int) =~= w);
    assert(w.skip(w.len() as int) =~= Seq::<char>::empty());
    assert(split_spec(Seq::<char>::empty()) =~= Seq::<Seq<char>>::empty());
    assert(split_spec(w) == seq![w.take(w.len() as int)] + split_spec(w.skip(w.len() as int)));
}

/// Law: re-splitting any word of a prior split returns that word alone.
pub proof fn lemma_resplit_returns_same_word(s: Seq<char>, i: int)
    requires
        0 <= i < split_spec(s).len(),
    ensures
        split_spec(split_spec(s)[i]) =~= seq![split_spec(s)[i]],
{
    lemma_split_words_are_single_runs(s);
    lemma_split_idempotent_on_word(split_spec(s)[i]);
}

/// A text of nothing but whitespace splits into no words at all.
pub proof fn lemma_split_all_space(s: Seq<char>)
    requires
        forall|i: int| 0 <= i < s.len() ==> is_space(#[trigger] s[i]),
    ensures
        split_spec(s) =~= Seq::<Seq<char>>::empty(),
    decreases s.len(),
{
    if s.len() > 0 {
        assert(is_space(s[0]));
        assert forall|i: int| 0 <= i < s.skip(1).len() implies is_space(#[trigger] s.skip(1)[i]) by {
            assert(s.skip(1)[i] == s[i + 1]);
        }
        lemma_split_all_space(s.skip(1));
    }
}

/// Break raw source text into its ordered sequence of words.
pub fn split_words_into_vec(stream_buffer: String) -> (words: Vec<String>)
    ensures
        word_views(words@) == split_spec(stream_buffer@),
        forall|i: int| 0 <= i < words@.len() ==> (#[trigger] words@[i])@.len() > 0,
{
    let s: &str = stream_buffer.as_str();
    let n: usize = s.unicode_len();
    let mut words: Vec<String> = Vec::new();
    let mut i: usize = 0;
    proof {
        assert(s@.skip(0) =~= s@);
        assert(word_views(words@) =~= Seq::<Seq<char>>::empty());
        assert(word_views(words@) + split_spec(s@) =~= split_spec(s@));
    }
    while i < n
        invariant
            i <= n,
            n == s@.len(),
            word_views(words@) + split_spec(s@.skip(i as int)) == split_spec(s@),
            forall|k: int| 0 <= k < words@.len() ==> (#[trigger] words@[k])@.len() > 0,
        decreases n - i,
    {
        let c: char = s.get_char(i);
        assert(s@.skip(i as int)[0] == s@[i as int]);
        if space_char(c) {
            proof {
                assert(s@.skip(i as int).skip(1) =~= s@.skip(i as int + 1));
            }
            i = i + 1;
        } else {
            let start: usize = i;
            let mut j: usize = i + 1;
            while j < n && same_class_char(c, s.get_char(j))
                invariant
                    start < j <= n,
                    n == s@.len(),
                    c == s@[start as int],
                    forall|m: int| start <= m < j ==> same_class(c, #[trigger] s@[m]),
                decreases n - j,
            {
                j = j + 1;
            }
            let ghost rest = s@.skip(start as int);
            proof {
                assert forall|m: int| 0 <= m < j - start implies same_class(c, #[trigger] rest[m]) by {
                    assert(rest[m] == s@[start + m]);
                }
                if j < n {
                    assert(rest[j - start] == s@[j as int]);
                    assert(!same_class(c, rest[j - start]));
                }
                lemma_run_len_of_stretch(rest, c, j - start);
                assert(rest.take(j - start) =~= s@.subrange(start as int, j as int));
                assert(rest.skip(j - start) =~= s@.skip(j as int));
                assert(split_spec(rest) == seq![s@.subrange(start as int, j as int)] + split_spec(
                    s@.skip(j as int),
                ));
            }
            let piece: &str = s.substring_char(start, j);
            let word: String = piece.to_owned();
            let ghost old_words = words@;
            words.push(word);
            proof {
                lemma_word_views_push(old_words, word);
                assert(word_views(words@) + split_spec(s@.skip(j as int)) =~= (word_views(old_words)
                    + split_spec(s@.skip(start as int))));
            }
            i = j;
        }
    }
    proof {
        assert(s@.skip(n as int) =~= Seq::<char>::empty());
        assert(word_views(words@) + split_spec(s@.skip(n as int)) =~= word_views(words@));
    }
    words
}

} // verus!
