//! The output formatter.
//!
//! One result record becomes one line of text: the enabled fields, in the
//! fixed order lines, words, bytes, characters, each rendered in decimal and
//! right-aligned in a field of minimum width 8 (space-padded, never
//! truncated); then, for a named source, one space and the name.  A record
//! with no field enabled renders as the bare name part.

use vstd::prelude::*;
use vstd::string::StringExecFns;
use crate::counter::Output;
use crate::options::Config;

verus! {

/// The decimal digit character for `d` below ten.
pub open spec fn digit_char(d: nat) -> char {
    if d == 0 {
        '0'
    } else if d == 1 {
        '1'
    } else if d == 2 {
        '2'
    } else if d == 3 {
        '3'
    } else if d == 4 {
        '4'
    } else if d == 5 {
        '5'
    } else if d == 6 {
        '6'
    } else if d == 7 {
        '7'
    } else if d == 8 {
        '8'
    } else {
        '9'
    }
}

/// The decimal rendering of `n`, most significant digit first, without
/// leading zeros (zero itself renders as one digit).
pub open spec fn dec_rep(n: nat) -> Seq<char>
    decreases n,
{
    if n < 10 {
        seq![digit_char(n)]
    } else {
        dec_rep(n / 10) + seq![digit_char(n % 10)]
    }
}

/// `k` space characters.
pub open spec fn spaces(k: nat) -> Seq<char>
    decreases k,
{
    if k == 0 {
        Seq::empty()
    } else {
        spaces((k - 1) as nat).push(' ')
    }
}

/// `s` right-aligned in a field of minimum width 8: space-padded on the
/// left when shorter, untouched when as wide or wider.
pub open spec fn padded8(s: Seq<char>) -> Seq<char> {
    if s.len() >= 8 {
        s
    } else {
        spaces((8 - s.len()) as nat) + s
    }
}

/// One aligned cell of the line: the count, rendered and padded.
pub open spec fn cell(n: nat) -> Seq<char> {
    padded8(dec_rep(n))
}

/// The whole output line for one record under one selection: the enabled
/// fields in the order lines, words, bytes, characters, then a space and the
/// display name where the source had one.
pub open spec fn rendered(c: Config, o: Output) -> Seq<char> {
    let cells = (if c.lines {
        cell(o.lines as nat)
    } else {
        Seq::<char>::empty()
    }) + (if c.words {
        cell(o.words as nat)
    } else {
        Seq::<char>::empty()
    }) + (if c.bytes {
        cell(o.bytes as nat)
    } else {
        Seq::<char>::empty()
    }) + (if c.chars {
        cell(o.chars as nat)
    } else {
        Seq::<char>::empty()
    });
    match o.filename {
        Some(name) => cells + seq![' '] + name@,
        None => cells,
    }
}

/// The one-character text of one decimal digit.
fn digit_str(d: u64) -> (r: &'static str)
    requires
        d < 10,
    ensures
        r@ == seq![digit_char(d as nat)],
{
    proof {
        reveal_strlit("0");
        reveal_strlit("1");
        reveal_strlit("2");
        reveal_strlit("3");
        reveal_strlit("4");
        reveal_strlit("5");
        reveal_strlit("6");
        reveal_strlit("7");
        reveal_strlit("8");
        reveal_strlit("9");
    }
    let r: &'static str = if d == 0 {
        "0"
    } else if d == 1 {
        "1"
    } else if d == 2 {
        "2"
    } else if d == 3 {
        "3"
    } else if d == 4 {
        "4"
    } else if d == 5 {
        "5"
    } else if d == 6 {
        "6"
    } else if d == 7 {
        "7"
    } else if d == 8 {
        "8"
    } else {
        "9"
    };
    proof {
        assert(r@ =~= seq![digit_char(d as nat)]);
    }
    r
}

/// Renders `n` in decimal, most significant digit first.
fn to_decimal(n: u64) -> (r: String)
    ensures
        r@ == dec_rep(n as nat),
    decreases n,
{
    if n < 10 {
        digit_str(n).to_owned()
    } else {
        let mut s = to_decimal(n / 10);
        s.append(digit_str(n % 10));
        proof {
            assert((n / 10) as nat == (n as nat) / 10);
            assert((n % 10) as nat == (n as nat) % 10);
        }
        s
    }
}

/// The width of the decimal rendering, digit range by digit range.
proof fn lemma_dec_rep_len(n: nat)
    requires
        n <= u64::MAX,
    ensures
        dec_rep(n).len() == if n < 10 {
            1int
        } else if n < 100 {
            2int
        } else if n < 1000 {
            3int
        } else if n < 10000 {
            4int
        } else if n < 100000 {
            5int
        } else if n < 1000000 {
            6int
        } else if n < 10000000 {
            7int
        } else if n < 100000000 {
            8int
        } else if n < 1000000000 {
            9int
        } else if n < 10000000000 {
            10int
        } else if n < 100000000000 {
            11int
        } else if n < 1000000000000 {
            12int
        } else if n < 10000000000000 {
            13int
        } else if n < 100000000000000 {
            14int
        } else if n < 1000000000000000 {
            15int
        } else if n < 10000000000000000 {
            16int
        } else if n < 100000000000000000 {
            17int
        } else if n < 1000000000000000000 {
            18int
        } else if n < 10000000000000000000 {
            19int
        } else {
            20int
        },
    decreases n,
{
    if n >= 10 {
        lemma_dec_rep_len(n / 10);
    }
}

/// The number of digits `n` renders as.
fn dec_len(n: u64) -> (r: usize)
    ensures
        r == dec_rep(n as nat).len(),
{
    proof {
        lemma_dec_rep_len(n as nat);
    }
    if n < 10 {
        1
    } else if n < 100 {
        2
    } else if n < 1000 {
        3
    } else if n < 10000 {
        4
    } else if n < 100000 {
        5
    } else if n < 1000000 {
        6
    } else if n < 10000000 {
        7
    } else if n < 100000000 {
        8
    } else if n < 1000000000 {
        9
    } else if n < 10000000000 {
        10
    } else if n < 100000000000 {
        11
    } else if n < 1000000000000 {
        12
    } else if n < 10000000000000 {
        13
    } else if n < 100000000000000 {
        14
    } else if n < 1000000000000000 {
        15
    } else if n < 10000000000000000 {
        16
    } else if n < 100000000000000000 {
        17
    } else if n < 1000000000000000000 {
        18
    } else if n < 10000000000000000000 {
        19
    } else {
        20
    }
}

/// Renders one count as its aligned cell: right-aligned in a field of
/// minimum width 8.
fn padded_cell(n: u64) -> (r: String)
    ensures
        r@ == cell(n as nat),
{
    let width = dec_len(n);
    let mut s = String::new();
    let mut k: usize = width;
    proof {
        reveal_strlit(" ");
    }
    while k < 8
        invariant
            width <= k <= 8 || (width > 8 && k == width),
            width == dec_rep(n as nat).len(),
            s@ =~= spaces((k - width) as nat),
        decreases 8 - k,
    {
        s.append(" ");
        proof {
            reveal_strlit(" ");
            assert(s@ =~= spaces((k + 1 - width) as nat));
        }
        k = k + 1;
    }
    let digits = to_decimal(n);
    s.append(digits.as_str());
    proof {
        assert(s@ =~= cell(n as nat));
    }
    s
}

/// Renders one finalized record under one selection as its output line:
/// the enabled fields in the fixed order lines, words, bytes, characters,
/// each right-aligned to width 8, then a space and the display name where
/// the source had one.
pub fn display(config: &Config, output: &Output) -> (r: String)
    ensures
        r@ == rendered(*config, *output),
{
    let mut res = String::new();
    if config.lines {
        let c = padded_cell(output.lines);
        res.append(c.as_str());
    }
    if config.words {
        let c = padded_cell(output.words);
        res.append(c.as_str());
    }
    if config.bytes {
        let c = padded_cell(output.bytes);
        res.append(c.as_str());
    }
    if config.chars {
        let c = padded_cell(output.chars);
        res.append(c.as_str());
    }
    match &output.filename {
        Some(name) => {
            proof {
                reveal_strlit(" ");
            }
            res.append(" ");
            res.append(name.as_str());
        },
        None => {},
    }
    proof {
        assert(res@ =~= rendered(*config, *output));
    }
    res
}

} // verus!
