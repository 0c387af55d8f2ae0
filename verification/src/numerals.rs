//! The numeral renderer: an integer looked up in a loaded table, with a
//! deterministic digit-substitution fallback on a miss.

use vstd::prelude::*;
use std::collections::HashMap;

verus! {

/// The numeral for one decimal digit; the same symbol set serves zero
/// itself.
pub open spec fn digit_char(d: int) -> char {
    if d == 0 {
        '〇'
    } else if d == 1 {
        '一'
    } else if d == 2 {
        '二'
    } else if d == 3 {
        '三'
    } else if d == 4 {
        '四'
    } else if d == 5 {
        '五'
    } else if d == 6 {
        '六'
    } else if d == 7 {
        '七'
    } else if d == 8 {
        '八'
    } else {
        '九'
    }
}

/// The decimal digits of `n`, most significant first; empty for zero.
pub open spec fn digits_of(n: int) -> Seq<char>
    decreases n,
{
    if n <= 0 {
        Seq::<char>::empty()
    } else {
        digits_of(n / 10) + seq![digit_char(n % 10)]
    }
}

/// The naive digit substitution: each decimal digit in turn, with the
/// dedicated zero symbol for zero itself.
pub open spec fn spec_fallback(num: int) -> Seq<char> {
    if num == 0 {
        seq!['〇']
    } else {
        digits_of(num)
    }
}

/// The digit numeral for an executable digit value.
fn digit_char_exec(d: usize) -> (r: char)
    requires
        d < 10,
    ensures
        r == digit_char(d as int),
{
    if d == 0 {
        '〇'
    } else if d == 1 {
        '一'
    } else if d == 2 {
        '二'
    } else if d == 3 {
        '三'
    } else if d == 4 {
        '四'
    } else if d == 5 {
        '五'
    } else if d == 6 {
        '六'
    } else if d == 7 {
        '七'
    } else if d == 8 {
        '八'
    } else {
        '九'
    }
}

/// Renders `num` by digit substitution.
#[verifier::loop_isolation(false)]
pub fn fallback_digits(num: usize) -> (r: Vec<char>)
    ensures
        r@ == spec_fallback(num as int),
{
    if num == 0 {
        let mut r: Vec<char> = Vec::new();
        r.push('〇');
        proof {
            assert(r@ =~= seq!['〇']);
        }
        return r;
    }
    let mut buf: Vec<char> = Vec::new();
    let mut n: usize = num;
    proof {
        assert(buf@.reverse() =~= Seq::<char>::empty());
    }
    while n > 0
        invariant
            digits_of(num as int) == digits_of(n as int) + buf@.reverse(),
        decreases n,
    {
        let d = n % 10;
        proof {
            vstd::arithmetic::div_mod::lemma_mod_division_less_than_divisor(n as int, 10);
            assert(buf@.push(digit_char(d as int)).reverse() =~= seq![digit_char(d as int)]
                + buf@.reverse());
            assert(digits_of(n as int) + buf@.reverse() =~= digits_of(n as int / 10) + (seq![
                digit_char(n as int % 10),
            ] + buf@.reverse()));
        }
        buf.push(digit_char_exec(d));
        n = n / 10;
    }
    let mut out: Vec<char> = Vec::new();
    let bl: usize = buf.len();
    let mut i: usize = 0;
    while i < bl
        invariant
            i <= bl,
            bl == buf@.len(),
            out@ =~= buf@.reverse().subrange(0, i as int),
        decreases bl - i,
    {
        out.push(buf[bl - 1 - i]);
        proof {
            assert(out@ =~= buf@.reverse().subrange(0, i as int + 1));
        }
        i = i + 1;
    }
    proof {
        assert(out@ =~= buf@.reverse());
    }
    out
}

/// The loaded numeral table: ordinal to rendered string.
#[derive(Debug)]
pub struct NumeralMap {
    pub map: HashMap<usize, Vec<char>>,
}

/// What `render` returns: the table entry, or the digit fallback.
pub open spec fn spec_render(m: NumeralMap, num: usize) -> Seq<char> {
    if m.map@.contains_key(num) {
        m.map@[num]@
    } else {
        spec_fallback(num as int)
    }
}

impl NumeralMap {
    /// An empty table.
    pub fn new() -> (r: NumeralMap)
        ensures
            r.map@ == Map::<usize, Vec<char>>::empty(),
    {
        NumeralMap { map: HashMap::new() }
    }

    /// Adds or replaces the entry for `num`.
    pub fn insert_entry(&mut self, num: usize, val: Vec<char>)
        ensures
            final(self).map@ == old(self).map@.insert(num, val),
    {
        self.map.insert(num, val);
    }

    /// The table entry for `num`, if one was loaded.
    pub fn get(&self, num: usize) -> (r: Option<&Vec<char>>)
        ensures
            match r {
                Some(v) => self.map@.contains_key(num) && self.map@[num] == *v,
                None => !self.map@.contains_key(num),
            },
    {
        self.map.get(&num)
    }

    /// The numeral string for `num`: the table entry, or the digit
    /// fallback on a miss.
    pub fn render(&self, num: usize) -> (r: Vec<char>)
        ensures
            r@ == spec_render(*self, num),
    {
        match self.get(num) {
            Some(v) => crate::engine::clone_chars(v),
            None => fallback_digits(num),
        }
    }
}

} // verus!
