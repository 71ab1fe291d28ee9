//! Rendering of the spatial hit annotation: each run prints as
//! `external_id:run_length`, runs of one mate are joined by single spaces,
//! and the two mates of a pair are joined by the fixed separator token.

use vstd::prelude::*;

verus! {

/// The character of one decimal digit.
pub open spec fn digit_char(d: int) -> char {
    if d == 0 {
        '0'
    } else if d == 1 {
        '1'
    } else if d == 2 {
        '2'
    } else if d == 3 {
        '3'
    } else if d == 4 {
        '4'
    } else if d == 5 {
        '5'
    } else if d == 6 {
        '6'
    } else if d == 7 {
        '7'
    } else if d == 8 {
        '8'
    } else {
        '9'
    }
}

/// The decimal rendering of a nonnegative number, most significant digit
/// first.
pub open spec fn dec_of(n: int) -> Seq<char>
    decreases n,
{
    if n <= 9 {
        seq![digit_char(n)]
    } else {
        dec_of(n / 10).push(digit_char(n % 10))
    }
}

/// The rendering of one run: `external_id:run_length`.
pub open spec fn run_chars(run: (u64, usize)) -> Seq<char> {
    dec_of(run.0 as int) + seq![':'] + dec_of(run.1 as int)
}

/// The rendering of one mate's run list, single-space separated.
pub open spec fn render_runs(runs: Seq<(u64, usize)>) -> Seq<char>
    decreases runs.len(),
{
    if runs.len() == 0 {
        Seq::<char>::empty()
    } else if runs.len() == 1 {
        run_chars(runs[0])
    } else {
        render_runs(runs.drop_last()) + seq![' '] + run_chars(runs.last())
    }
}

/// The fixed token joining the two mates of a pair.
pub open spec fn mate_separator() -> Seq<char> {
    seq![' ', '|', ':', '|', ' ']
}

/// Append one decimal digit to the string.
fn push_digit(s: &mut String, d: u64)
    requires
        d < 10,
    ensures
        final(s)@ == old(s)@ + seq![digit_char(d as int)],
{
    if d == 0 {
        proof {
            reveal_strlit("0");
            assert("0"@ =~= seq![digit_char(0)]);
        }
        s.append("0");
    } else if d == 1 {
        proof {
            reveal_strlit("1");
            assert("1"@ =~= seq![digit_char(1)]);
        }
        s.append("1");
    } else if d == 2 {
        proof {
            reveal_strlit("2");
            assert("2"@ =~= seq![digit_char(2)]);
        }
        s.append("2");
    } else if d == 3 {
        proof {
            reveal_strlit("3");
            assert("3"@ =~= seq![digit_char(3)]);
        }
        s.append("3");
    } else if d == 4 {
        proof {
            reveal_strlit("4");
            assert("4"@ =~= seq![digit_char(4)]);
        }
        s.append("4");
    } else if d == 5 {
        proof {
            reveal_strlit("5");
            assert("5"@ =~= seq![digit_char(5)]);
        }
        s.append("5");
    } else if d == 6 {
        proof {
            reveal_strlit("6");
            assert("6"@ =~= seq![digit_char(6)]);
        }
        s.append("6");
    } else if d == 7 {
        proof {
            reveal_strlit("7");
            assert("7"@ =~= seq![digit_char(7)]);
        }
        s.append("7");
    } else if d == 8 {
        proof {
            reveal_strlit("8");
            assert("8"@ =~= seq![digit_char(8)]);
        }
        s.append("8");
    } else {
        proof {
            reveal_strlit("9");
            assert("9"@ =~= seq![digit_char(9)]);
        }
        s.append("9");
    }
}

/// Append the decimal rendering of `n` to the string.
pub fn push_u64(s: &mut String, n: u64)
    ensures
        final(s)@ == old(s)@ + dec_of(n as int),
    decreases n,
{
    if n >= 10 {
        push_u64(s, n / 10);
    }
    push_digit(s, n % 10);
    proof {
        if n >= 10 {
            assert(old(s)@ + dec_of((n / 10) as int) + seq![digit_char((n % 10) as int)] =~= old(
                s,
            )@ + dec_of(n as int));
        } else {
            assert(old(s)@ + seq![digit_char(n as int)] =~= old(s)@ + dec_of(n as int));
        }
    }
}

/// Append one mate's run list, each run as `external_id:run_length`, joined
/// by single spaces.
pub fn push_runs(s: &mut String, runs: &Vec<(u64, usize)>)
    ensures
        final(s)@ == old(s)@ + render_runs(runs@),
{
    let n = runs.len();
    let mut i: usize = 0;
    while i < n
        invariant
            i <= n,
            n == runs@.len(),
            s@ == old(s)@ + render_runs(runs@.take(i as int)),
        decreases n - i,
    {
        if i > 0 {
            proof {
                reveal_strlit(" ");
                assert(" "@ =~= seq![' ']);
            }
            s.append(" ");
        }
        let run = runs[i];
        push_u64(s, run.0);
        proof {
            reveal_strlit(":");
            assert(":"@ =~= seq![':']);
        }
        s.append(":");
        push_u64(s, run.1 as u64);
        proof {
            let pre = runs@.take(i as int);
            let post = runs@.take(i + 1);
            assert(post.drop_last() =~= pre);
            assert(post.last() == runs@[i as int]);
            assert(dec_of(run.1 as int) == dec_of(runs@[i as int].1 as int));
            if i == 0 {
                assert(render_runs(post) == run_chars(runs@[0]));
                assert(s@ =~= old(s)@ + render_runs(post));
            } else {
                assert(render_runs(post) == render_runs(pre) + seq![' '] + run_chars(
                    runs@[i as int],
                ));
                assert(s@ =~= old(s)@ + render_runs(post));
            }
        }
        i = i + 1;
    }
    proof {
        assert(runs@.take(n as int) =~= runs@);
    }
}

} // verus!
