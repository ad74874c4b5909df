//! The flag scanner.
//!
//! Arguments are scanned left to right.  An argument is a flag argument
//! exactly when its first character is `-`; the rest of such a token is a
//! concatenation of flag letters, each enabling one field: `c` bytes, `l`
//! lines, `m` characters (a stub that always renders zero), `w` words.  Any
//! other letter is unrecognized and yields a non-fatal diagnostic.  The scan
//! stops at the first non-flag argument; that argument and everything after
//! it is the file list.  When no flag argument was seen at all, the selection
//! resets to the fixed default: bytes, lines and words.

use vstd::prelude::*;

verus! {

/// Which of the four counts are reported.
#[derive(Clone, Copy, Debug, PartialEq, Eq, Structural)]
pub struct Config {
    /// Report the byte count.
    pub bytes: bool,
    /// Report the line count.
    pub lines: bool,
    /// Report the character count (always rendered as zero).
    pub chars: bool,
    /// Report the word count.
    pub words: bool,
}

impl Config {
    /// The empty selection: no field enabled.
    pub fn new() -> (r: Config)
        ensures
            !r.bytes,
            !r.lines,
            !r.chars,
            !r.words,
    {
        let (bytes, lines, chars, words) = (false, false, false, false);
        Config { bytes, lines, chars, words }
    }

    /// Resets to the fixed default selection: bytes, lines and words.
    pub fn default(&mut self)
        ensures
            final(self).bytes,
            final(self).lines,
            final(self).words,
            final(self).chars == old(self).chars,
    {
        self.bytes = true;
        self.lines = true;
        self.words = true;
    }
}

/// One non-fatal diagnostic arising from the scan, for the caller to put on
/// the error stream.
#[derive(Clone, Copy, Debug, PartialEq, Eq, Structural)]
pub enum Diag {
    /// A flag letter the scanner does not recognize; the selection is
    /// unaffected by it.
    Unsupported(char),
    /// The character-count flag was given: it is accepted, but character
    /// counting is an unimplemented stub that always renders zero.
    CharsUnimplemented,
}

/// An argument whose first character is the flag introducer.
pub open spec fn is_flag_arg(a: Seq<char>) -> bool {
    a.len() > 0 && a[0] == '-'
}

/// How many arguments the flag scan consumes: the longest prefix made of
/// flag arguments only.
pub open spec fn flag_prefix_len(args: Seq<Seq<char>>) -> nat
    decreases args.len(),
{
    if args.len() == 0 || !is_flag_arg(args[0]) {
        0
    } else {
        1 + flag_prefix_len(args.drop_first())
    }
}

/// `ch` occurs among the first `upto` letters of the flag argument `a`
/// (position 0 is the introducer, not a letter).
pub open spec fn letter_in_arg(a: Seq<char>, upto: int, ch: char) -> bool {
    exists|j: int| 1 <= j < upto && a[j] == ch
}

/// `ch` occurs as a flag letter in one of the first `upto` arguments.
pub open spec fn letter_in_args(args: Seq<Seq<char>>, upto: int, ch: char) -> bool {
    exists|i: int| 0 <= i < upto && letter_in_arg(args[i], args[i].len() as int, ch)
}

/// `ch` occurs as a flag letter somewhere in the flag prefix of the
/// invocation.
pub open spec fn has_flag_letter(args: Seq<Seq<char>>, ch: char) -> bool {
    letter_in_args(args, flag_prefix_len(args) as int, ch)
}

/// The diagnostics one flag letter yields: none for a recognized counting
/// letter, the stub notice for `m`, and an unsupported-letter notice for
/// anything else.
pub open spec fn diag_of(ch: char) -> Seq<Diag> {
    if ch == 'c' || ch == 'l' || ch == 'w' {
        Seq::empty()
    } else if ch == 'm' {
        seq![Diag::CharsUnimplemented]
    } else {
        seq![Diag::Unsupported(ch)]
    }
}

/// The diagnostics of the first `upto` letters of one flag argument, in
/// order.
pub open spec fn arg_diags(a: Seq<char>, upto: int) -> Seq<Diag>
    decreases upto,
{
    if upto <= 1 {
        Seq::empty()
    } else {
        arg_diags(a, upto - 1) + diag_of(a[upto - 1])
    }
}

/// The diagnostics of the first `upto` arguments, in order.
pub open spec fn args_diags(args: Seq<Seq<char>>, upto: int) -> Seq<Diag>
    decreases upto,
{
    if upto <= 0 {
        Seq::empty()
    } else {
        args_diags(args, upto - 1) + arg_diags(args[upto - 1], args[upto - 1].len() as int)
    }
}

/// Every diagnostic of the whole scan, in the order it arises.
pub open spec fn diags_of(args: Seq<Seq<char>>) -> Seq<Diag> {
    args_diags(args, flag_prefix_len(args) as int)
}

/// The outcome of scanning one raw argument list.
pub struct Parsed {
    /// The field selection, after the default rule.
    pub config: Config,
    /// The index of the first non-flag argument — the start of the file
    /// list — or absent when every argument was a flag argument (standard
    /// input mode).
    pub files_start: Option<usize>,
    /// Every diagnostic of the scan, in order.
    pub diags: Vec<Diag>,
}

/// A scan that saw flag arguments up to `i` and stopped there (at the end or
/// at a non-flag argument) consumed exactly the flag prefix.
proof fn lemma_flag_prefix_at(args: Seq<Seq<char>>, i: int)
    requires
        0 <= i <= args.len(),
        forall|k: int| 0 <= k < i ==> is_flag_arg(#[trigger] args[k]),
        i == args.len() || !is_flag_arg(args[i]),
    ensures
        flag_prefix_len(args) == i,
    decreases i,
{
    if i == 0 {
    } else {
        assert(is_flag_arg(args[0]));
        let tail = args.drop_first();
        assert(forall|k: int| 0 <= k < i - 1 ==> #[trigger] tail[k] == args[k + 1]);
        lemma_flag_prefix_at(tail, i - 1);
    }
}

/// Scanning one more letter of an argument extends the letters seen by that
/// letter alone.
proof fn lemma_letter_step(a: Seq<char>, j: int, ch: char)
    requires
        1 <= j,
    ensures
        letter_in_arg(a, j + 1, ch) == (letter_in_arg(a, j, ch) || a[j] == ch),
{
    if letter_in_arg(a, j + 1, ch) {
        let w = choose|w: int| 1 <= w < j + 1 && a[w] == ch;
        if w < j {
            assert(letter_in_arg(a, j, ch));
        }
    }
    if letter_in_arg(a, j, ch) {
        let w = choose|w: int| 1 <= w < j && a[w] == ch;
        assert(1 <= w < j + 1 && a[w] == ch);
        assert(letter_in_arg(a, j + 1, ch));
    }
    if a[j] == ch {
        assert(1 <= j < j + 1 && a[j] == ch);
        assert(letter_in_arg(a, j + 1, ch));
    }
}

/// Scanning one more whole argument extends the letters seen by that
/// argument's letters alone.
proof fn lemma_args_letter_step(args: Seq<Seq<char>>, i: int, ch: char)
    requires
        0 <= i,
    ensures
        letter_in_args(args, i + 1, ch) == (letter_in_args(args, i, ch) || letter_in_arg(
            args[i],
            args[i].len() as int,
            ch,
        )),
{
    if letter_in_args(args, i + 1, ch) {
        let w = choose|w: int|
            0 <= w < i + 1 && letter_in_arg(args[w], args[w].len() as int, ch);
        if w < i {
            assert(letter_in_args(args, i, ch));
        }
    }
    if letter_in_args(args, i, ch) {
        let w = choose|w: int| 0 <= w < i && letter_in_arg(args[w], args[w].len() as int, ch);
        assert(0 <= w < i + 1 && letter_in_arg(args[w], args[w].len() as int, ch));
        assert(letter_in_args(args, i + 1, ch));
    }
    if letter_in_arg(args[i], args[i].len() as int, ch) {
        assert(0 <= i < i + 1 && letter_in_arg(args[i], args[i].len() as int, ch));
        assert(letter_in_args(args, i + 1, ch));
    }
}

/// One scanned letter that yields a diagnostic appends exactly that
/// diagnostic to the scan's output.
proof fn lemma_diags_push_step(x: Seq<Diag>, ai: Seq<char>, j: int, before: Seq<Diag>, d: Diag)
    requires
        1 <= j < ai.len(),
        diag_of(ai[j]) == seq![d],
        before == x + arg_diags(ai, j),
    ensures
        before.push(d) == x + arg_diags(ai, j + 1),
{
    assert(arg_diags(ai, j + 1) == arg_diags(ai, j) + diag_of(ai[j]));
    assert(before.push(d) =~= x + (arg_diags(ai, j) + seq![d]));
}

/// One scanned letter that yields no diagnostic leaves the scan's output as
/// it was.
proof fn lemma_diags_keep_step(x: Seq<Diag>, ai: Seq<char>, j: int, before: Seq<Diag>)
    requires
        1 <= j < ai.len(),
        diag_of(ai[j]) == Seq::<Diag>::empty(),
        before == x + arg_diags(ai, j),
    ensures
        before == x + arg_diags(ai, j + 1),
{
    assert(arg_diags(ai, j + 1) == arg_diags(ai, j) + diag_of(ai[j]));
    assert(before =~= x + (arg_diags(ai, j) + Seq::<Diag>::empty()));
}

/// The diagnostic of an unrecognized letter.
proof fn lemma_diag_other(ch: char)
    requires
        ch != 'c',
        ch != 'l',
        ch != 'm',
        ch != 'w',
    ensures
        diag_of(ch) == seq![Diag::Unsupported(ch)],
{
}

/// Scans the raw argument list (the program name excluded): the longest
/// prefix of flag arguments fixes the selection — by the default rule when
/// the prefix is empty, else exactly the letters named — and the rest is the
/// file list.
pub fn parse_args(args: &Vec<Vec<char>>) -> (r: Parsed)
    ensures
        ({
            let a = args.deep_view();
            let p = flag_prefix_len(a) as int;
            &&& r.files_start == if p < a.len() {
                Some(p as usize)
            } else {
                None::<usize>
            }
            &&& p == 0 ==> r.config == (Config {
                bytes: true,
                lines: true,
                chars: false,
                words: true,
            })
            &&& p > 0 ==> r.config.bytes == has_flag_letter(a, 'c')
            &&& p > 0 ==> r.config.lines == has_flag_letter(a, 'l')
            &&& p > 0 ==> r.config.chars == has_flag_letter(a, 'm')
            &&& p > 0 ==> r.config.words == has_flag_letter(a, 'w')
            &&& r.diags@ == diags_of(a)
        }),
{
    let ghost a = args.deep_view();
    proof {
        assert forall|k: int| 0 <= k < args@.len() implies #[trigger] a[k] == args@[k]@ by {
            assert(a[k] =~= args@[k]@);
        }
    }
    let mut config = Config::new();
    let mut diags: Vec<Diag> = Vec::new();
    let mut files_start: Option<usize> = None;
    let mut stopped = false;
    let mut i: usize = 0;
    while !stopped && i < args.len()
        invariant
            a == args.deep_view(),
            forall|k: int| 0 <= k < args@.len() ==> #[trigger] a[k] == args@[k]@,
            i <= args.len(),
            a.len() == args@.len(),
            forall|k: int| 0 <= k < i ==> is_flag_arg(#[trigger] a[k]),
            config.bytes == letter_in_args(a, i as int, 'c'),
            config.lines == letter_in_args(a, i as int, 'l'),
            config.chars == letter_in_args(a, i as int, 'm'),
            config.words == letter_in_args(a, i as int, 'w'),
            diags@ == args_diags(a, i as int),
            stopped ==> i < args@.len() && !is_flag_arg(a[i as int]) && files_start == Some(i),
            !stopped ==> files_start.is_none(),
        decreases args.len() - i + (if stopped { 0int } else { 1int }),
    {
        let arg = &args[i];
        if arg.len() == 0 || arg[0] != '-' {
            files_start = Some(i);
            stopped = true;
        } else {
            assert(is_flag_arg(a[i as int]));
            let mut j: usize = 1;
            while j < arg.len()
                invariant
                    a == args.deep_view(),
                    forall|k: int| 0 <= k < args@.len() ==> #[trigger] a[k] == args@[k]@,
                    i < args.len(),
                    a.len() == args@.len(),
                    arg == args@[i as int],
                    1 <= j <= arg.len(),
                    config.bytes == (letter_in_args(a, i as int, 'c') || letter_in_arg(
                        a[i as int],
                        j as int,
                        'c',
                    )),
                    config.lines == (letter_in_args(a, i as int, 'l') || letter_in_arg(
                        a[i as int],
                        j as int,
                        'l',
                    )),
                    config.chars == (letter_in_args(a, i as int, 'm') || letter_in_arg(
                        a[i as int],
                        j as int,
                        'm',
                    )),
                    config.words == (letter_in_args(a, i as int, 'w') || letter_in_arg(
                        a[i as int],
                        j as int,
                        'w',
                    )),
                    diags@ == args_diags(a, i as int) + arg_diags(a[i as int], j as int),
                decreases arg.len() - j,
            {
                let ch = arg[j];
                proof {
                    lemma_letter_step(a[i as int], j as int, 'c');
                    lemma_letter_step(a[i as int], j as int, 'l');
                    lemma_letter_step(a[i as int], j as int, 'm');
                    lemma_letter_step(a[i as int], j as int, 'w');
                    assert(a[i as int][j as int] == ch);
                }
                if ch == 'c' {
                    config.bytes = true;
                    proof {
                        lemma_diags_keep_step(
                            args_diags(a, i as int),
                            a[i as int],
                            j as int,
                            diags@,
                        );
                    }
                } else if ch == 'l' {
                    config.lines = true;
                    proof {
                        lemma_diags_keep_step(
                            args_diags(a, i as int),
                            a[i as int],
                            j as int,
                            diags@,
                        );
                    }
                } else if ch == 'm' {
                    config.chars = true;
                    proof {
                        lemma_diags_push_step(
                            args_diags(a, i as int),
                            a[i as int],
                            j as int,
                            diags@,
                            Diag::CharsUnimplemented,
                        );
                    }
                    diags.push(Diag::CharsUnimplemented);
                } else if ch == 'w' {
                    config.words = true;
                    proof {
                        lemma_diags_keep_step(
                            args_diags(a, i as int),
                            a[i as int],
                            j as int,
                            diags@,
                        );
                    }
                } else {
                    proof {
                        lemma_diag_other(ch);
                        lemma_diags_push_step(
                            args_diags(a, i as int),
                            a[i as int],
                            j as int,
                            diags@,
                            Diag::Unsupported(ch),
                        );
                    }
                    diags.push(Diag::Unsupported(ch));
                }
                j = j + 1;
            }
            proof {
                lemma_args_letter_step(a, i as int, 'c');
                lemma_args_letter_step(a, i as int, 'l');
                lemma_args_letter_step(a, i as int, 'm');
                lemma_args_letter_step(a, i as int, 'w');
                assert(args_diags(a, i + 1) == args_diags(a, i as int) + arg_diags(
                    a[i as int],
                    a[i as int].len() as int,
                ));
            }
            i = i + 1;
        }
    }
    proof {
        lemma_flag_prefix_at(a, i as int);
    }
    if i == 0 {
        config.default();
    }
    Parsed { config, files_start, diags }
}

} // verus!
