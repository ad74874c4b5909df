//! The single-pass byte counter.
//!
//! A scan walks the input once, classifying each byte: a newline ends a line
//! and puts the scanner inside whitespace; a tab or space puts it inside
//! whitespace; any other byte value (non-ASCII octets included) starts a new
//! word exactly when the scanner was inside whitespace.  The scanner starts
//! inside whitespace, so a leading non-whitespace byte opens the first word.
//!
//! Character counting is deliberately unimplemented: the character count of
//! every result is zero, and a selection that asks for it still renders that
//! zero rather than omitting the field.

use vstd::prelude::*;

verus! {

/// The byte that ends a line.
pub open spec fn is_newline(b: u8) -> bool {
    b == 10
}

/// The bytes that separate words: newline, horizontal tab, space.
/// Other whitespace-like bytes (carriage return among them) are deliberately
/// not separators.
pub open spec fn is_word_sep(b: u8) -> bool {
    b == 10 || b == 9 || b == 32
}

/// The number of newline bytes in `s`.
pub open spec fn lines_of(s: Seq<u8>) -> nat
    decreases s.len(),
{
    if s.len() == 0 {
        0
    } else {
        lines_of(s.drop_last()) + if is_newline(s.last()) {
            1nat
        } else {
            0nat
        }
    }
}

/// Whether the scanner is inside whitespace after consuming `s`.
/// It starts there, and afterwards the state depends on the last byte alone.
pub open spec fn in_whitespace_after(s: Seq<u8>) -> bool {
    s.len() == 0 || is_word_sep(s.last())
}

/// The number of words in `s`: a word begins at each non-separator byte that
/// follows the start of the input or a separator byte.
pub open spec fn words_of(s: Seq<u8>) -> nat
    decreases s.len(),
{
    if s.len() == 0 {
        0
    } else {
        words_of(s.drop_last()) + if !is_word_sep(s.last()) && in_whitespace_after(
            s.drop_last(),
        ) {
            1nat
        } else {
            0nat
        }
    }
}

/// How one appended byte changes the counts.
pub proof fn lemma_counts_push(s: Seq<u8>, b: u8)
    ensures
        lines_of(s.push(b)) == lines_of(s) + if is_newline(b) {
            1nat
        } else {
            0nat
        },
        words_of(s.push(b)) == words_of(s) + if !is_word_sep(b) && in_whitespace_after(s) {
            1nat
        } else {
            0nat
        },
        in_whitespace_after(s.push(b)) == is_word_sep(b),
{
    assert(s.push(b).drop_last() =~= s);
    assert(s.push(b).last() == b);
}

/// There are never more lines than bytes.
pub proof fn lemma_lines_le_len(s: Seq<u8>)
    ensures
        lines_of(s) <= s.len(),
    decreases s.len(),
{
    if s.len() > 0 {
        lemma_lines_le_len(s.drop_last());
    }
}

/// There are never more words than bytes.
pub proof fn lemma_words_le_len(s: Seq<u8>)
    ensures
        words_of(s) <= s.len(),
    decreases s.len(),
{
    if s.len() > 0 {
        lemma_words_le_len(s.drop_last());
    }
}

/// Appending a single whitespace byte never changes the word count:
/// trailing whitespace never starts a new word.
pub proof fn lemma_trailing_whitespace(s: Seq<u8>, w: u8)
    requires
        is_word_sep(w),
    ensures
        words_of(s.push(w)) == words_of(s),
{
    lemma_counts_push(s, w);
}

/// Consecutive whitespace bytes collapse: doubling a whitespace byte anywhere
/// in the input leaves the word count unchanged, so a run of separators
/// produces at most one word boundary.
pub proof fn lemma_whitespace_collapse(s: Seq<u8>, w1: u8, w2: u8, t: Seq<u8>)
    requires
        is_word_sep(w1),
        is_word_sep(w2),
    ensures
        words_of(s.push(w1).push(w2) + t) == words_of(s.push(w1) + t),
    decreases t.len(),
{
    if t.len() == 0 {
        assert(s.push(w1).push(w2) + t =~= s.push(w1).push(w2));
        assert(s.push(w1) + t =~= s.push(w1));
        lemma_counts_push(s.push(w1), w2);
        lemma_counts_push(s, w1);
    } else {
        let t0 = t.drop_last();
        let b = t.last();
        lemma_whitespace_collapse(s, w1, w2, t0);
        assert(s.push(w1).push(w2) + t =~= (s.push(w1).push(w2) + t0).push(b));
        assert(s.push(w1) + t =~= (s.push(w1) + t0).push(b));
        lemma_counts_push(s.push(w1).push(w2) + t0, b);
        lemma_counts_push(s.push(w1) + t0, b);
        if t0.len() == 0 {
            assert(s.push(w1).push(w2) + t0 =~= s.push(w1).push(w2));
            assert(s.push(w1) + t0 =~= s.push(w1));
            assert((s.push(w1).push(w2)).last() == w2);
            assert((s.push(w1)).last() == w1);
        } else {
            assert((s.push(w1).push(w2) + t0).last() == t0.last());
            assert((s.push(w1) + t0).last() == t0.last());
        }
        assert(in_whitespace_after(s.push(w1).push(w2) + t0) == in_whitespace_after(
            s.push(w1) + t0,
        ));
    }
}

/// One finalized result record: the counts of one input, with the display
/// name of the source where it had one.
#[derive(Debug)]
pub struct Output {
    /// Every byte of the input, whitespace included.
    pub bytes: u64,
    /// The number of newline bytes.
    pub lines: u64,
    /// Always zero: character counting is an unimplemented stub.
    pub chars: u64,
    /// The number of words.
    pub words: u64,
    /// The display name of the source; absent for standard input.
    pub filename: Option<String>,
}

/// The running state of one scan.  `seen` records, in ghost state, the bytes
/// consumed so far; `wf` ties every field to it.
pub struct Counter {
    /// Bytes consumed so far.
    pub bytes: u64,
    /// Newlines seen so far.
    pub lines: u64,
    /// Words begun so far.
    pub words: u64,
    /// Whether the scanner is currently inside whitespace.
    pub in_whitespace: bool,
    /// The bytes consumed so far.
    pub seen: Ghost<Seq<u8>>,
}

impl Counter {
    /// The counts agree with the bytes consumed so far.
    pub open spec fn wf(self) -> bool {
        &&& self.bytes == self.seen@.len()
        &&& self.lines == lines_of(self.seen@)
        &&& self.words == words_of(self.seen@)
        &&& self.in_whitespace == in_whitespace_after(self.seen@)
    }

    /// A fresh scan: nothing consumed, all counts zero, inside whitespace.
    pub fn new() -> (r: Counter)
        ensures
            r.wf(),
            r.seen@ == Seq::<u8>::empty(),
    {
        Counter { bytes: 0, lines: 0, words: 0, in_whitespace: true, seen: Ghost(Seq::empty()) }
    }

    /// Consumes one more chunk of the input, in order, one byte at a time.
    pub fn update(&mut self, chunk: &[u8])
        requires
            old(self).wf(),
            old(self).seen@.len() + chunk@.len() <= u64::MAX,
        ensures
            final(self).wf(),
            final(self).seen@ == old(self).seen@ + chunk@,
    {
        let mut i: usize = 0;
        while i < chunk.len()
            invariant
                self.wf(),
                i <= chunk.len(),
                self.seen@ == old(self).seen@ + chunk@.subrange(0, i as int),
                old(self).seen@.len() + chunk@.len() <= u64::MAX,
            decreases chunk.len() - i,
        {
            let b = chunk[i];
            proof {
                lemma_lines_le_len(self.seen@);
                lemma_words_le_len(self.seen@);
                lemma_counts_push(self.seen@, b);
            }
            if b == 10 {
                self.in_whitespace = true;
                self.lines = self.lines + 1;
            } else if b == 9 || b == 32 {
                self.in_whitespace = true;
            } else {
                if self.in_whitespace {
                    self.in_whitespace = false;
                    self.words = self.words + 1;
                }
            }
            self.bytes = self.bytes + 1;
            let ghost grown = self.seen@.push(b);
            self.seen = Ghost(grown);
            proof {
                assert(grown =~= old(self).seen@ + chunk@.subrange(0, i + 1));
            }
            i = i + 1;
        }
        proof {
            assert(self.seen@ =~= old(self).seen@ + chunk@);
        }
    }

    /// Closes the scan: the finalized record of everything consumed, with the
    /// character count pinned to zero (the deliberate stub).
    pub fn finish(self, filename: Option<String>) -> (r: Output)
        requires
            self.wf(),
        ensures
            r.bytes == self.seen@.len(),
            r.lines == lines_of(self.seen@),
            r.words == words_of(self.seen@),
            r.chars == 0,
            r.filename == filename,
    {
        Output {
            bytes: self.bytes,
            lines: self.lines,
            chars: 0,
            words: self.words,
            filename,
        }
    }
}

/// Counts one whole input held in memory: every byte is counted, lines are
/// exactly the newline bytes, words are the maximal non-separator runs, and
/// the character count is zero.
pub fn process(data: &[u8], filename: Option<String>) -> (r: Output)
    ensures
        r.bytes == data@.len(),
        r.lines == lines_of(data@),
        r.words == words_of(data@),
        r.chars == 0,
        r.filename == filename,
{
    let len = data.len();
    proof {
        assert(data@.len() == len);
        assert(len <= usize::MAX <= u64::MAX);
    }
    let mut counter = Counter::new();
    counter.update(data);
    proof {
        assert(counter.seen@ =~= data@);
    }
    counter.finish(filename)
}

} // verus!
