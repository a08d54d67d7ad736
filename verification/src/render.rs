//! Rendering of a whole stack for the `V` command.
//!
//! Each element becomes one line `index: entry`, newline-terminated, listed
//! from the bottom of the stack (the highest index) down to the top (index
//! 0).  The entries themselves are rendered by the value type; this module
//! proves the framing: the decimal indices and the line layout.

use vstd::prelude::*;
use vstd::string::StringExecFns;

verus! {

/// The glyph of the decimal digit `d`.
pub open spec fn dec_digit_char(d: int) -> char {
    if d == 0 {
        '0'
    } else if d == 1 {
        '1'
    } else if d == 2 {
        '2'
    } else if d == 3 {
        '3'
    } else if d == 4 {
        '4'
    } else if d == 5 {
        '5'
    } else if d == 6 {
        '6'
    } else if d == 7 {
        '7'
    } else if d == 8 {
        '8'
    } else {
        '9'
    }
}

/// The decimal rendering of `n`, most significant digit first.
pub open spec fn dec_seq(n: nat) -> Seq<char>
    decreases n,
{
    if n < 10 {
        seq![dec_digit_char(n as int)]
    } else {
        dec_seq(n / 10).push(dec_digit_char((n % 10) as int))
    }
}

/// One rendered line: the decimal index, a colon and a space, the entry, and
/// a newline.
pub open spec fn line_seq(idx: nat, entry: Seq<char>) -> Seq<char> {
    dec_seq(idx) + ": "@ + entry + "\n"@
}

/// The full rendering of entries listed bottom first: the first (bottom)
/// entry carries the highest index, the last (top) entry index 0.
pub open spec fn stack_lines(entries: Seq<Seq<char>>) -> Seq<char>
    decreases entries.len(),
{
    if entries.len() == 0 {
        Seq::empty()
    } else {
        line_seq((entries.len() - 1) as nat, entries.first()) + stack_lines(entries.drop_first())
    }
}

fn dec_digit_str(d: usize) -> (r: &'static str)
    requires
        d < 10,
    ensures
        r@ == seq![dec_digit_char(d as int)],
{
    if d == 0 {
        proof {
            reveal_strlit("0");
        }
        "0"
    } else if d == 1 {
        proof {
            reveal_strlit("1");
        }
        "1"
    } else if d == 2 {
        proof {
            reveal_strlit("2");
        }
        "2"
    } else if d == 3 {
        proof {
            reveal_strlit("3");
        }
        "3"
    } else if d == 4 {
        proof {
            reveal_strlit("4");
        }
        "4"
    } else if d == 5 {
        proof {
            reveal_strlit("5");
        }
        "5"
    } else if d == 6 {
        proof {
            reveal_strlit("6");
        }
        "6"
    } else if d == 7 {
        proof {
            reveal_strlit("7");
        }
        "7"
    } else if d == 8 {
        proof {
            reveal_strlit("8");
        }
        "8"
    } else {
        proof {
            reveal_strlit("9");
        }
        "9"
    }
}

/// The decimal rendering of `n` as a string.
pub fn dec_str(n: usize) -> (r: String)
    ensures
        r@ == dec_seq(n as nat),
    decreases n,
{
    if n < 10 {
        String::from_str(dec_digit_str(n))
    } else {
        let mut s = dec_str(n / 10);
        s.append(dec_digit_str(n % 10));
        assert(s@ =~= dec_seq(n as nat));
        s
    }
}

/// Renders one stack listing from the entries' own renderings, given bottom
/// first, exactly as [`stack_lines`] describes.
pub fn format_entries(entries: &Vec<String>) -> (r: String)
    ensures
        r@ == stack_lines(entries@.map_values(|s: String| s@)),
{
    let ghost m = entries@.map_values(|s: String| s@);
    let len = entries.len();
    let mut s = String::new();
    let mut i: usize = 0;
    proof {
        assert(m.subrange(0, len as int) =~= m);
        assert(s@ + stack_lines(m) =~= stack_lines(m));
    }
    while i < len
        invariant
            i <= len,
            len == entries@.len(),
            m == entries@.map_values(|t: String| t@),
            s@ + stack_lines(m.subrange(i as int, len as int)) == stack_lines(m),
        decreases len - i,
    {
        let ghost before = s@;
        let idx = len - 1 - i;
        let num = dec_str(idx);
        s.append(num.as_str());
        s.append(": ");
        s.append(entries[i].as_str());
        s.append("\n");
        proof {
            let rest = m.subrange(i as int, len as int);
            assert(rest.first() == m[i as int]);
            assert(rest.drop_first() =~= m.subrange(i + 1, len as int));
            assert(stack_lines(rest) == line_seq((len - 1 - i) as nat, m[i as int]) + stack_lines(
                m.subrange(i + 1, len as int),
            ));
            assert(s@ =~= before + line_seq((len - 1 - i) as nat, m[i as int]));
            assert(s@ + stack_lines(m.subrange(i + 1, len as int)) =~= before + stack_lines(
                m.subrange(i as int, len as int),
            ));
        }
        i = i + 1;
    }
    proof {
        assert(m.subrange(len as int, len as int) =~= Seq::<Seq<char>>::empty());
        assert(s@ + stack_lines(m.subrange(len as int, len as int)) =~= s@);
    }
    s
}

} // verus!
