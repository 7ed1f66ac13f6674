//! The storage directory for a thread: `outputRoot/board/threadId`,
//! resolved once before the first cycle and reused for every cycle.

use vstd::prelude::*;
use vstd::string::StringExecFns;

use crate::thread_info::Thread;
use crate::thread_info::digits_val;
use crate::worker::local_path;
use crate::worker::path_join;

verus! {

/// The digit character of a value below ten.
pub open spec fn digit_char_of(d: int) -> char {
    if d == 0 {
        '0'
    } else if d == 1 {
        '1'
    } else if d == 2 {
        '2'
    } else if d == 3 {
        '3'
    } else if d == 4 {
        '4'
    } else if d == 5 {
        '5'
    } else if d == 6 {
        '6'
    } else if d == 7 {
        '7'
    } else if d == 8 {
        '8'
    } else {
        '9'
    }
}

/// The decimal digits of `n`, most significant first.
pub open spec fn dec_digits(n: int) -> Seq<char>
    decreases n,
{
    if n < 10 {
        seq![digit_char_of(n)]
    } else {
        dec_digits(n / 10).push(digit_char_of(n % 10))
    }
}

/// Reading the decimal rendering back gives the value: the digits of the
/// id in the storage path mean the id itself.
pub proof fn lemma_dec_digits_value(n: int)
    requires
        n >= 0,
    ensures
        digits_val(dec_digits(n)) == n,
    decreases n,
{
    if n < 10 {
        assert(dec_digits(n) == seq![digit_char_of(n)]);
        assert(dec_digits(n).drop_last() =~= Seq::<char>::empty());
        assert(digits_val(Seq::<char>::empty()) == 0);
        assert(dec_digits(n).last() == digit_char_of(n));
        assert(digit_char_of(n) as int - '0' as int == n);
        assert(digits_val(dec_digits(n)) == digits_val(dec_digits(n).drop_last()) * 10 + (
        dec_digits(n).last() as int - '0' as int));
    } else {
        lemma_dec_digits_value(n / 10);
        assert(dec_digits(n).drop_last() =~= dec_digits(n / 10));
        assert(dec_digits(n).last() == digit_char_of(n % 10));
        assert(digit_char_of(n % 10) as int - '0' as int == n % 10);
        assert(digits_val(dec_digits(n)) == digits_val(dec_digits(n).drop_last()) * 10 + (
        dec_digits(n).last() as int - '0' as int));
        assert(n / 10 * 10 + n % 10 == n);
    }
}

/// Appends the digit character of `d` to `s`.
fn push_digit(s: &mut String, d: u32)
    requires
        d < 10,
    ensures
        final(s)@ == old(s)@.push(digit_char_of(d as int)),
{
    if d == 0 {
        s.append("0");
        proof {
            reveal_strlit("0");
            assert(s@ =~= old(s)@.push('0'));
        }
    } else if d == 1 {
        s.append("1");
        proof {
            reveal_strlit("1");
            assert(s@ =~= old(s)@.push('1'));
        }
    } else if d == 2 {
        s.append("2");
        proof {
            reveal_strlit("2");
            assert(s@ =~= old(s)@.push('2'));
        }
    } else if d == 3 {
        s.append("3");
        proof {
            reveal_strlit("3");
            assert(s@ =~= old(s)@.push('3'));
        }
    } else if d == 4 {
        s.append("4");
        proof {
            reveal_strlit("4");
            assert(s@ =~= old(s)@.push('4'));
        }
    } else if d == 5 {
        s.append("5");
        proof {
            reveal_strlit("5");
            assert(s@ =~= old(s)@.push('5'));
        }
    } else if d == 6 {
        s.append("6");
        proof {
            reveal_strlit("6");
            assert(s@ =~= old(s)@.push('6'));
        }
    } else if d == 7 {
        s.append("7");
        proof {
            reveal_strlit("7");
            assert(s@ =~= old(s)@.push('7'));
        }
    } else if d == 8 {
        s.append("8");
        proof {
            reveal_strlit("8");
            assert(s@ =~= old(s)@.push('8'));
        }
    } else {
        s.append("9");
        proof {
            reveal_strlit("9");
            assert(s@ =~= old(s)@.push('9'));
        }
    }
}

/// The decimal rendering of `n`.
pub fn u32_to_dec(n: u32) -> (s: String)
    ensures
        s@ == dec_digits(n as int),
    decreases n,
{
    if n < 10 {
        let mut s = String::new();
        push_digit(&mut s, n);
        proof {
            assert(s@ =~= seq![digit_char_of(n as int)]);
        }
        s
    } else {
        let mut s = u32_to_dec(n / 10);
        push_digit(&mut s, n % 10);
        s
    }
}

/// The storage directory of a thread under the output root:
/// `outputRoot/board/threadId`.
pub fn storage_directory(output: &str, thread: &Thread) -> (d: String)
    ensures
        d@ == path_join(path_join(output@, thread.board@), dec_digits(thread.id as int)),
{
    let id = u32_to_dec(thread.id);
    let p1 = local_path(output, thread.board.as_str());
    local_path(p1.as_str(), id.as_str())
}

} // verus!
