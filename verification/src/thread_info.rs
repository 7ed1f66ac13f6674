//! Thread identity: reading the board name and numeric thread id out of a
//! thread locator of the shape `scheme://host/board/thread/id[#fragment]`.
//! The board is the fourth `/`-separated piece, the id the sixth, with any
//! `#` fragment cut off.

use vstd::prelude::*;
use vstd::string::StrSliceExecFns;

use crate::extract::chars_of;
use crate::extract::digit_char;
use crate::extract::is_digit_char;

verus! {

/// A discussion thread's identity: board name and numeric id. Derived once
/// from the input locator; the id is the non-negative integer the locator
/// carries, the board is never empty.
#[derive(Debug)]
pub struct Thread {
    pub board: String,
    pub id: u32,
}

/// Position of the first `sep` at or after `i`, or the length when none.
pub open spec fn char_find(s: Seq<char>, sep: char, i: int) -> int
    decreases s.len() - i,
{
    if 0 <= i < s.len() {
        if s[i] == sep {
            i
        } else {
            char_find(s, sep, i + 1)
        }
    } else {
        s.len() as int
    }
}

/// Start of piece `k` of the `/`-split of `s`: one past the k-th slash, or
/// one past the end when the text has fewer slashes.
pub open spec fn piece_start(s: Seq<char>, k: int) -> int
    decreases k,
{
    if k <= 0 {
        0
    } else {
        let prev = piece_start(s, k - 1);
        if prev <= s.len() {
            let e = char_find(s, '/', prev);
            if e < s.len() {
                e + 1
            } else {
                s.len() as int + 1
            }
        } else {
            s.len() as int + 1
        }
    }
}

/// Does the `/`-split of `s` have a piece `k`?
pub open spec fn has_piece(s: Seq<char>, k: int) -> bool {
    piece_start(s, k) <= s.len()
}

/// Piece `k` of the `/`-split of `s`.
pub open spec fn piece(s: Seq<char>, k: int) -> Seq<char>
    recommends
        has_piece(s, k),
{
    s.subrange(piece_start(s, k), char_find(s, '/', piece_start(s, k)))
}

/// The digits of the thread id: piece 5, cut at any `#` fragment mark.
pub open spec fn id_part(s: Seq<char>) -> Seq<char>
    recommends
        has_piece(s, 5),
{
    let p5 = piece(s, 5);
    p5.subrange(0, char_find(p5, '#', 0))
}

/// Is every character of `ds` a decimal digit?
pub open spec fn all_digits(ds: Seq<char>) -> bool {
    forall|k: int| 0 <= k < ds.len() ==> is_digit_char(#[trigger] ds[k])
}

/// Numeric value of a digit sequence, most significant digit first.
pub open spec fn digits_val(ds: Seq<char>) -> int
    decreases ds.len(),
{
    if ds.len() == 0 {
        0
    } else {
        digits_val(ds.drop_last()) * 10 + (ds.last() as int - '0' as int)
    }
}

/// A well-formed thread locator: at least six `/`-separated pieces, a
/// nonempty board name at piece 3, and a nonempty, purely numeric id at
/// piece 5 (up to any fragment) whose value fits in `u32`.
pub open spec fn valid_thread_url(s: Seq<char>) -> bool {
    &&& has_piece(s, 5)
    &&& piece(s, 3).len() > 0
    &&& id_part(s).len() > 0
    &&& all_digits(id_part(s))
    &&& digits_val(id_part(s)) <= u32::MAX
}

/// `char_find` stays within `[i, s.len()]`, lands on `sep` when it lands
/// inside the text, and skips no earlier occurrence.
pub proof fn lemma_char_find_bounds(s: Seq<char>, sep: char, i: int)
    requires
        0 <= i <= s.len(),
    ensures
        i <= char_find(s, sep, i) <= s.len(),
        char_find(s, sep, i) < s.len() ==> s[char_find(s, sep, i)] == sep,
        forall|k: int| i <= k < char_find(s, sep, i) ==> s[k] != sep,
    decreases s.len() - i,
{
    if i < s.len() && s[i] != sep {
        lemma_char_find_bounds(s, sep, i + 1);
    }
}

/// Once the pieces run out they stay run out.
pub proof fn lemma_piece_start_saturates(s: Seq<char>, j: int, k: int)
    requires
        0 <= j <= k,
        piece_start(s, j) == s.len() + 1,
    ensures
        piece_start(s, k) == s.len() + 1,
    decreases k - j,
{
    if j < k {
        lemma_piece_start_saturates(s, j + 1, k);
    }
}

/// Digit sequences have non-negative value.
pub proof fn lemma_digits_val_nonneg(ds: Seq<char>)
    requires
        all_digits(ds),
    ensures
        digits_val(ds) >= 0,
    decreases ds.len(),
{
    if ds.len() > 0 {
        assert(all_digits(ds.drop_last())) by {
            assert(forall|k: int|
                0 <= k < ds.len() - 1 ==> #[trigger] ds.drop_last()[k] == ds[k]);
        }
        lemma_digits_val_nonneg(ds.drop_last());
    }
}

/// Each digit prefix is worth no more than the whole sequence.
pub proof fn lemma_digits_val_prefix_le(ds: Seq<char>, j: int)
    requires
        all_digits(ds),
        0 <= j <= ds.len(),
    ensures
        digits_val(ds.take(j)) <= digits_val(ds),
    decreases ds.len() - j,
{
    if j == ds.len() {
        assert(ds.take(j) =~= ds);
    } else {
        lemma_digits_val_prefix_le(ds, j + 1);
        let p = ds.take(j + 1);
        assert(p.drop_last() =~= ds.take(j));
        assert(all_digits(ds.take(j))) by {
            assert(forall|k: int| 0 <= k < j ==> #[trigger] ds.take(j)[k] == ds[k]);
        }
        lemma_digits_val_nonneg(ds.take(j));
        assert(digits_val(p) == digits_val(ds.take(j)) * 10 + (ds[j] as int - '0' as int));
        assert(is_digit_char(ds[j]));
    }
}

/// Runtime scan matching `char_find` over the range `[from, to)` of `cs`,
/// reported as a position relative to that range.
fn find_in_range(cs: &Vec<char>, sep: char, from: usize, to: usize) -> (h: usize)
    requires
        from <= to <= cs.len(),
    ensures
        from <= h <= to,
        h - from == char_find(cs@.subrange(from as int, to as int), sep, 0),
{
    let ghost sub = cs@.subrange(from as int, to as int);
    let mut i = from;
    while i < to && cs[i] != sep
        invariant
            from <= i <= to <= cs.len(),
            sub == cs@.subrange(from as int, to as int),
            char_find(sub, sep, 0) == char_find(sub, sep, i - from),
        decreases to - i,
    {
        proof {
            assert(sub[i - from] == cs@[i as int]);
            assert(char_find(sub, sep, i - from) == char_find(sub, sep, i + 1 - from));
        }
        i = i + 1;
    }
    proof {
        if i < to {
            assert(sub[i - from] == cs@[i as int]);
            assert(char_find(sub, sep, i - from) == i - from);
        } else {
            assert(char_find(sub, sep, i - from) == sub.len());
        }
    }
    i
}

/// Runtime scan matching `char_find` from `from` to the end of `cs`.
fn char_find_x(cs: &Vec<char>, sep: char, from: usize) -> (h: usize)
    requires
        from <= cs.len(),
    ensures
        h == char_find(cs@, sep, from as int),
        from <= h <= cs.len(),
{
    let mut i = from;
    while i < cs.len() && cs[i] != sep
        invariant
            from <= i <= cs.len(),
            char_find(cs@, sep, from as int) == char_find(cs@, sep, i as int),
        decreases cs.len() - i,
    {
        proof {
            assert(char_find(cs@, sep, i as int) == char_find(cs@, sep, i + 1 as int));
        }
        i = i + 1;
    }
    i
}

/// Start of piece `k` of `cs`, or `None` when the text has fewer pieces.
fn piece_start_x(cs: &Vec<char>, k: usize) -> (r: Option<usize>)
    ensures
        match r {
            Some(p) => p as int == piece_start(cs@, k as int) && p <= cs.len(),
            None => piece_start(cs@, k as int) == cs@.len() + 1,
        },
{
    let mut t: usize = 0;
    let mut start: usize = 0;
    while t < k
        invariant
            t <= k,
            start <= cs.len(),
            start as int == piece_start(cs@, t as int),
        decreases k - t,
    {
        let e = char_find_x(cs, '/', start);
        if e < cs.len() {
            proof {
                assert(piece_start(cs@, t + 1 as int) == e + 1);
            }
            start = e + 1;
            t = t + 1;
        } else {
            proof {
                assert(piece_start(cs@, t + 1 as int) == cs@.len() + 1);
                lemma_piece_start_saturates(cs@, t + 1 as int, k as int);
            }
            return None;
        }
    }
    Some(start)
}

/// Checked reading of a thread locator: `Some` exactly on well-formed
/// locators, with the board name of piece 3 and the id value of piece 5.
pub fn parse_thread_info(url: &str) -> (r: Option<Thread>)
    ensures
        r.is_some() == valid_thread_url(url@),
        match r {
            Some(t) => t.board@ == piece(url@, 3) && t.id == digits_val(id_part(url@)),
            None => true,
        },
{
    let cs = chars_of(url);
    let p3 = match piece_start_x(&cs, 3) {
        Some(p) => p,
        None => {
            proof {
                lemma_piece_start_saturates(cs@, 3, 5);
            }
            return None;
        },
    };
    let e3 = char_find_x(&cs, '/', p3);
    if e3 == p3 {
        proof {
            assert(piece(cs@, 3).len() == 0);
        }
        return None;
    }
    let p5 = match piece_start_x(&cs, 5) {
        Some(p) => p,
        None => {
            return None;
        },
    };
    let e5 = char_find_x(&cs, '/', p5);
    let h = find_in_range(&cs, '#', p5, e5);
    let ghost ids = id_part(cs@);
    proof {
        assert(piece(cs@, 5) == cs@.subrange(p5 as int, e5 as int));
        assert(ids =~= cs@.subrange(p5 as int, h as int)) by {
            let pc = piece(cs@, 5);
            assert(pc.subrange(0, h - p5) =~= cs@.subrange(p5 as int, h as int));
        }
    }
    if h == p5 {
        proof {
            assert(ids.len() == 0);
        }
        return None;
    }
    // every id character must be a digit
    let mut i = p5;
    while i < h
        invariant
            p5 <= i <= h <= cs.len(),
            cs@ == url@,
            ids == id_part(url@),
            ids == cs@.subrange(p5 as int, h as int),
            forall|k: int| p5 <= k < i ==> is_digit_char(#[trigger] cs@[k]),
        decreases h - i,
    {
        if !digit_char(cs[i]) {
            proof {
                assert(ids[i - p5] == cs@[i as int]);
                assert(!all_digits(ids));
            }
            return None;
        }
        i = i + 1;
    }
    proof {
        assert(all_digits(ids)) by {
            assert(forall|k: int| 0 <= k < ids.len() ==> #[trigger] ids[k] == cs@[k + p5]);
        }
    }
    // accumulate the value, left to right
    let mut acc: u64 = 0;
    let mut j = p5;
    while j < h
        invariant
            p5 <= j <= h <= cs.len(),
            cs@ == url@,
            ids == id_part(url@),
            ids == cs@.subrange(p5 as int, h as int),
            all_digits(ids),
            acc as int == digits_val(ids.take(j - p5)),
            acc <= u32::MAX,
        decreases h - j,
    {
        let c = cs[j];
        proof {
            assert(ids[j - p5] == cs@[j as int]);
            assert(is_digit_char(c));
        }
        let d: u64 = (c as u32) as u64 - ('0' as u32) as u64;
        proof {
            assert(is_digit_char(ids[j - p5]));
            assert(ids.take(j + 1 - p5).drop_last() =~= ids.take(j - p5));
            assert(digits_val(ids.take(j + 1 - p5)) == digits_val(ids.take(j - p5)) * 10 + (
            c as int - '0' as int));
        }
        let acc2: u64 = acc * 10 + d;
        if acc2 > u32::MAX as u64 {
            proof {
                lemma_digits_val_prefix_le(ids, j + 1 - p5);
            }
            return None;
        }
        acc = acc2;
        j = j + 1;
    }
    proof {
        assert(ids.take(h - p5) =~= ids);
    }
    let board = url.substring_char(p3, e3).to_owned();
    proof {
        assert(board@ == piece(cs@, 3));
    }
    Some(Thread { board, id: acc as u32 })
}

/// Board name and thread id of a well-formed thread locator: the board is
/// piece 3 of the `/`-split, the id the numeric value of piece 5 up to any
/// `#` fragment.
pub fn get_thread_info(url: &str) -> (t: Thread)
    requires
        valid_thread_url(url@),
    ensures
        t.board@ == piece(url@, 3),
        t.id == digits_val(id_part(url@)),
{
    match parse_thread_info(url) {
        Some(t) => t,
        None => unreached(),
    }
}

} // verus!
