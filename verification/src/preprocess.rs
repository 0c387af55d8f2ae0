//! The text preprocessor: normalizes raw chapter lines, applies the
//! configured substitution rules, and pads every line so that columns
//! always start at a slot boundary. Also the corpus of preprocessed
//! chapter streams.

use vstd::prelude::*;
use crate::chars::non_space;
use crate::config::BookConfig;

verus! {

/// The position of the first `c` in `s`, or `s.len()` when absent.
pub open spec fn first_index_of(s: Seq<char>, c: char) -> int
    decreases s.len(),
{
    if s.len() == 0 {
        0
    } else if s[0] == c {
        0
    } else {
        1 + first_index_of(s.drop_first(), c)
    }
}

/// `first_index_of` finds the first occurrence, within bounds.
pub proof fn lemma_first_index_of(s: Seq<char>, c: char)
    ensures
        0 <= first_index_of(s, c) <= s.len(),
        first_index_of(s, c) < s.len() ==> s[first_index_of(s, c)] == c,
        forall|k: int| 0 <= k < first_index_of(s, c) ==> s[k] != c,
    decreases s.len(),
{
    if s.len() > 0 && s[0] != c {
        lemma_first_index_of(s.drop_first(), c);
        let rest = s.drop_first();
        assert(forall|k: int| 0 <= k < rest.len() ==> rest[k] == s[k + 1]);
        assert forall|k: int| 0 <= k < first_index_of(s, c) implies s[k] != c by {
            if k > 0 {
                assert(rest[k - 1] != c);
            }
        }
    }
}

/// An index that holds `c` with none before it is the first index.
pub proof fn lemma_first_index_unique(s: Seq<char>, c: char, i: int)
    requires
        0 <= i < s.len(),
        s[i] == c,
        forall|k: int| 0 <= k < i ==> s[k] != c,
    ensures
        first_index_of(s, c) == i,
    decreases s.len(),
{
    if s[0] != c {
        let rest = s.drop_first();
        assert(forall|k: int| 0 <= k < rest.len() ==> rest[k] == s[k + 1]);
        lemma_first_index_unique(rest, c, i - 1);
    }
}

/// No occurrence of `c` means the first index is the length.
pub proof fn lemma_first_index_absent(s: Seq<char>, c: char)
    requires
        forall|k: int| 0 <= k < s.len() ==> s[k] != c,
    ensures
        first_index_of(s, c) == s.len(),
    decreases s.len(),
{
    if s.len() > 0 {
        let rest = s.drop_first();
        assert(forall|k: int| 0 <= k < rest.len() ==> rest[k] == s[k + 1]);
        lemma_first_index_absent(rest, c);
    }
}

/// `s` with every leftmost, non-overlapping occurrence of `pat` replaced
/// by `to`; an empty pattern leaves `s` unchanged.
pub open spec fn replace_all(s: Seq<char>, pat: Seq<char>, to: Seq<char>) -> Seq<char>
    decreases s.len(),
{
    if pat.len() == 0 || s.len() < pat.len() {
        s
    } else if s.subrange(0, pat.len() as int) == pat {
        to + replace_all(s.skip(pat.len() as int), pat, to)
    } else {
        seq![s[0]] + replace_all(s.drop_first(), pat, to)
    }
}

/// Whether `pat` occurs in `v` starting at `at`.
fn matches_at(v: &Vec<char>, at: usize, pat: &Vec<char>) -> (r: bool)
    requires
        at + pat@.len() <= v@.len(),
    ensures
        r == (v@.subrange(at as int, at as int + pat@.len() as int) == pat@),
{
    let ghost sub = v@.subrange(at as int, at as int + pat@.len() as int);
    let vl: usize = v.len();
    let mut i: usize = 0;
    while i < pat.len()
        invariant
            i <= pat@.len(),
            at + pat@.len() <= v@.len(),
            vl == v@.len(),
            sub == v@.subrange(at as int, at as int + pat@.len() as int),
            forall|k: int| 0 <= k < i ==> sub[k] == pat@[k],
        decreases pat@.len() - i,
    {
        if v[at + i] != pat[i] {
            proof {
                assert(sub[i as int] != pat@[i as int]);
            }
            return false;
        }
        i = i + 1;
    }
    proof {
        assert(sub =~= pat@);
    }
    true
}

/// Replaces every leftmost occurrence of `pat` with `to`.
#[verifier::loop_isolation(false)]
#[verifier::rlimit(100)]
pub fn replace_all_exec(v: &Vec<char>, pat: &Vec<char>, to: &Vec<char>) -> (r: Vec<char>)
    ensures
        r@ == replace_all(v@, pat@, to@),
{
    if pat.len() == 0 {
        return crate::engine::clone_chars(v);
    }
    let mut acc: Vec<char> = Vec::new();
    let vl: usize = v.len();
    let pl: usize = pat.len();
    let mut i: usize = 0;
    proof {
        assert(v@.skip(0) =~= v@);
    }
    while i < v.len()
        invariant
            i <= v@.len(),
            vl == v@.len(),
            pl == pat@.len(),
            pat@.len() >= 1,
            acc@ + replace_all(v@.skip(i as int), pat@, to@) == replace_all(v@, pat@, to@),
        decreases v@.len() - i,
    {
        let ghost suffix = v@.skip(i as int);
        let ghost acc0 = acc@;
        if vl - i >= pl && matches_at(v, i, pat) {
            proof {
                assert(suffix.subrange(0, pat@.len() as int) =~= v@.subrange(
                    i as int,
                    i as int + pat@.len() as int,
                ));
                assert(suffix.skip(pat@.len() as int) =~= v@.skip(i as int + pat@.len() as int));
            }
            let mut k: usize = 0;
            while k < to.len()
                invariant
                    k <= to@.len(),
                    acc@ == acc0 + to@.subrange(0, k as int),
                decreases to@.len() - k,
            {
                proof {
                    assert(acc0 + to@.subrange(0, k as int + 1) =~= (acc0 + to@.subrange(
                        0,
                        k as int,
                    )).push(to@[k as int]));
                }
                acc.push(to[k]);
                k = k + 1;
            }
            proof {
                assert(acc@ =~= acc0 + to@);
                assert((acc0 + to@) + replace_all(v@.skip(i as int + pat@.len() as int), pat@, to@)
                    =~= acc0 + (to@ + replace_all(v@.skip(i as int + pat@.len() as int), pat@, to@)));
            }
            i = i + pat.len();
        } else {
            proof {
                if i + pat@.len() <= v@.len() {
                    assert(suffix.subrange(0, pat@.len() as int) =~= v@.subrange(
                        i as int,
                        i as int + pat@.len() as int,
                    ));
                }
                assert(suffix.drop_first() =~= v@.skip(i as int + 1));
                assert(acc0.push(v@[i as int]) + replace_all(v@.skip(i as int + 1), pat@, to@) =~= acc0
                    + (seq![suffix[0]] + replace_all(suffix.drop_first(), pat@, to@)));
            }
            acc.push(v[i]);
            i = i + 1;
        }
    }
    proof {
        assert(v@.skip(v@.len() as int).len() == 0);
        assert(acc@ =~= acc@ + replace_all(v@.skip(v@.len() as int), pat@, to@));
    }
    acc
}

} // verus!

verus! {

/// Keeps characters found in neither list.
pub open spec fn not_in_either(a: Seq<char>, b: Seq<char>) -> spec_fn(char) -> bool {
    |c: char| !a.contains(c) && !b.contains(c)
}

/// Keeps every character but the bookline toggle brackets.
pub open spec fn not_bookline() -> spec_fn(char) -> bool {
    |c: char| c != '《' && c != '》'
}

/// Removes every occurrence of the characters in either list.
#[verifier::loop_isolation(false)]
pub fn remove_chars(v: &Vec<char>, a: &Vec<char>, b: &Vec<char>) -> (r: Vec<char>)
    ensures
        r@ == v@.filter(not_in_either(a@, b@)),
{
    let ghost pred = not_in_either(a@, b@);
    let mut r: Vec<char> = Vec::new();
    let mut i: usize = 0;
    while i < v.len()
        invariant
            i <= v@.len(),
            r@ == v@.subrange(0, i as int).filter(pred),
        decreases v@.len() - i,
    {
        proof {
            let s = v@.subrange(0, i as int);
            let one = seq![v@[i as int]];
            assert(v@.subrange(0, i as int + 1) =~= s + one);
            Seq::filter_distributes_over_add(s, one, pred);
            reveal_with_fuel(Seq::filter, 2);
            assert(one.drop_last() =~= Seq::<char>::empty());
            assert(one.filter(pred) == if pred(v@[i as int]) {
                one
            } else {
                Seq::<char>::empty()
            });
        }
        let c = v[i];
        if !crate::chars::contains_char(a, c) && !crate::chars::contains_char(b, c) {
            r.push(c);
            proof {
                assert(r@ =~= v@.subrange(0, i as int).filter(pred) + seq![v@[i as int]]);
            }
        }
        i = i + 1;
    }
    proof {
        assert(v@.subrange(0, v@.len() as int) =~= v@);
    }
    r
}

/// Removes the bookline toggle brackets.
#[verifier::loop_isolation(false)]
pub fn remove_bookline_brackets(v: &Vec<char>) -> (r: Vec<char>)
    ensures
        r@ == v@.filter(not_bookline()),
{
    let ghost pred = not_bookline();
    let mut r: Vec<char> = Vec::new();
    let mut i: usize = 0;
    while i < v.len()
        invariant
            i <= v@.len(),
            r@ == v@.subrange(0, i as int).filter(pred),
        decreases v@.len() - i,
    {
        proof {
            let s = v@.subrange(0, i as int);
            let one = seq![v@[i as int]];
            assert(v@.subrange(0, i as int + 1) =~= s + one);
            Seq::filter_distributes_over_add(s, one, pred);
            reveal_with_fuel(Seq::filter, 2);
            assert(one.drop_last() =~= Seq::<char>::empty());
            assert(one.filter(pred) == if pred(v@[i as int]) {
                one
            } else {
                Seq::<char>::empty()
            });
        }
        let c = v[i];
        if c != '《' && c != '》' {
            r.push(c);
            proof {
                assert(r@ =~= v@.subrange(0, i as int).filter(pred) + seq![v@[i as int]]);
            }
        }
        i = i + 1;
    }
    proof {
        assert(v@.subrange(0, v@.len() as int) =~= v@);
    }
    r
}

/// How many spaces pad a line of `total` slots to the next multiple of
/// `row_num`: zero when it already divides evenly.
pub open spec fn spec_missing(total: int, row_num: int) -> int {
    if row_num <= 0 {
        0
    } else if total % row_num == 0 {
        0
    } else {
        row_num - total % row_num
    }
}

/// The padding for a line of `total` slots. The padded length is always
/// a multiple of the rows per leaf, with fewer than a full column of
/// spaces added, and a line already on a boundary gets none.
pub fn missing_spaces(total: usize, row_num: usize) -> (r: usize)
    ensures
        r as int == spec_missing(total as int, row_num as int),
        row_num > 0 ==> ((total + r) as int % (row_num as int) == 0 && r < row_num),
        row_num > 0 && total as int % (row_num as int) == 0 ==> r == 0,
{
    if row_num == 0 {
        return 0;
    }
    proof {
        let t = total as int;
        let m = row_num as int;
        vstd::arithmetic::div_mod::lemma_fundamental_div_mod(t, m);
        vstd::arithmetic::div_mod::lemma_mod_division_less_than_divisor(t, m);
        if t % m != 0 {
            assert(t + (m - t % m) == m * (t / m + 1)) by (nonlinear_arith)
                requires
                    t == m * (t / m) + t % m,
            ;
            vstd::arithmetic::div_mod::lemma_mod_multiples_basic(t / m + 1, m);
        }
    }
    let remainder = total % row_num;
    if remainder == 0 {
        0
    } else {
        row_num - remainder
    }
}

/// Padding completes a line: a padded line needs no further padding.
pub proof fn lemma_padding_complete(total: int, row_num: int)
    requires
        row_num > 0,
        total >= 0,
    ensures
        spec_missing(total + spec_missing(total, row_num), row_num) == 0,
{
    vstd::arithmetic::div_mod::lemma_fundamental_div_mod(total, row_num);
    vstd::arithmetic::div_mod::lemma_mod_division_less_than_divisor(total, row_num);
    if total % row_num != 0 {
        assert(total + (row_num - total % row_num) == row_num * (total / row_num + 1))
            by (nonlinear_arith)
            requires
                total == row_num * (total / row_num) + total % row_num,
        ;
        vstd::arithmetic::div_mod::lemma_mod_multiples_basic(total / row_num + 1, row_num);
    }
}

/// Annotation slots in `s`: each complete `【...】` pair consumes one
/// half-width slot per two inner characters, rounded up; the scan
/// carries the bracket state and the inner count.
pub open spec fn annotation_slots_from(s: Seq<char>, inside: bool, inner: int) -> int
    decreases s.len(),
{
    if s.len() == 0 {
        0
    } else if !inside {
        annotation_slots_from(s.drop_first(), s[0] == '【', 0)
    } else if s[0] == '】' {
        (inner + 1) / 2 + annotation_slots_from(s.drop_first(), false, 0)
    } else {
        annotation_slots_from(s.drop_first(), true, inner + 1)
    }
}

/// Annotation slots consumed by the complete annotation blocks of `s`.
pub open spec fn annotation_slots(s: Seq<char>) -> int {
    annotation_slots_from(s, false, 0)
}

/// Annotation slots are never negative and are bounded by the carried
/// inner count plus the remaining length.
pub proof fn lemma_annotation_slots_bound(s: Seq<char>, inside: bool, inner: int)
    requires
        inner >= 0,
    ensures
        0 <= annotation_slots_from(s, inside, inner) <= inner + s.len(),
    decreases s.len(),
{
    if s.len() > 0 {
        if !inside {
            lemma_annotation_slots_bound(s.drop_first(), s[0] == '【', 0);
        } else if s[0] == '】' {
            lemma_annotation_slots_bound(s.drop_first(), false, 0);
        } else {
            lemma_annotation_slots_bound(s.drop_first(), true, inner + 1);
        }
    }
}

/// Counts the annotation slots of `v`.
#[verifier::loop_isolation(false)]
pub fn count_annotation_slots(v: &Vec<char>) -> (r: usize)
    ensures
        r as int == annotation_slots(v@),
        r <= v@.len(),
        annotation_slots(v@) <= v@.len(),
{
    let vl: usize = v.len();
    let mut total: usize = 0;
    let mut inner: usize = 0;
    let mut inside = false;
    let mut i: usize = 0;
    proof {
        assert(v@.skip(0) =~= v@);
        lemma_annotation_slots_bound(v@, false, 0);
    }
    while i < vl
        invariant
            i <= vl,
            vl == v@.len(),
            inside ==> total + inner <= i,
            !inside ==> total <= i && inner == 0,
            total + annotation_slots_from(v@.skip(i as int), inside, inner as int)
                == annotation_slots(v@),
            0 <= annotation_slots_from(v@.skip(i as int), inside, inner as int),
            annotation_slots_from(v@.skip(i as int), inside, inner as int) <= inner + (vl - i),
        decreases vl - i,
    {
        proof {
            let suf = v@.skip(i as int);
            assert(suf.drop_first() =~= v@.skip(i as int + 1));
            lemma_annotation_slots_bound(v@.skip(i as int + 1), suf[0] == '【', 0);
            lemma_annotation_slots_bound(v@.skip(i as int + 1), false, 0);
            lemma_annotation_slots_bound(v@.skip(i as int + 1), true, inner as int + 1);
        }
        let c = v[i];
        if !inside {
            inside = c == '【';
            inner = 0;
        } else if c == '】' {
            total = total + (inner + 1) / 2;
            inside = false;
            inner = 0;
        } else {
            inner = inner + 1;
        }
        i = i + 1;
    }
    proof {
        assert(v@.skip(vl as int).len() == 0);
    }
    total
}

} // verus!

verus! {

/// Appends a copy of `src` to `dst`.
pub fn append_chars(dst: &mut Vec<char>, src: &Vec<char>)
    ensures
        final(dst)@ == old(dst)@ + src@,
{
    let ghost d0 = dst@;
    let mut i: usize = 0;
    while i < src.len()
        invariant
            i <= src@.len(),
            dst@ =~= d0 + src@.subrange(0, i as int),
        decreases src@.len() - i,
    {
        dst.push(src[i]);
        proof {
            assert(dst@ =~= d0 + src@.subrange(0, i as int + 1));
        }
        i = i + 1;
    }
    proof {
        assert(dst@ =~= d0 + src@);
    }
}

/// `s` with every complete `【...】` block removed; an unmatched opening
/// bracket and everything after it stay.
pub open spec fn spec_strip_annotations(s: Seq<char>) -> Seq<char>
    decreases s.len(),
    via strip_annotations_decreases
{
    let a = first_index_of(s, '【');
    if a >= s.len() {
        s
    } else {
        let rest = s.skip(a + 1);
        let b = first_index_of(rest, '】');
        if b >= rest.len() {
            s
        } else {
            s.take(a) + spec_strip_annotations(rest.skip(b + 1))
        }
    }
}

#[via_fn]
proof fn strip_annotations_decreases(s: Seq<char>) {
    lemma_first_index_of(s, '【');
    let a = first_index_of(s, '【');
    if a < s.len() {
        lemma_first_index_of(s.skip(a + 1), '】');
    }
}

/// Removes every complete annotation block.
#[verifier::loop_isolation(false)]
pub fn strip_annotations(v: &Vec<char>) -> (r: Vec<char>)
    ensures
        r@ == spec_strip_annotations(v@),
    decreases v@.len(),
{
    let vl: usize = v.len();
    proof {
        lemma_first_index_of(v@, '【');
    }
    match crate::chars::find_char_from(v, '【', 0) {
        None => {
            proof {
                lemma_first_index_absent(v@, '【');
            }
            crate::engine::clone_chars(v)
        },
        Some(a) => {
            proof {
                lemma_first_index_unique(v@, '【', a as int);
            }
            let ghost rest = v@.skip(a as int + 1);
            proof {
                assert(forall|k: int| 0 <= k < rest.len() ==> rest[k] == v@[a as int + 1 + k]);
            }
            match crate::chars::find_char_from(v, '】', a + 1) {
                None => {
                    proof {
                        lemma_first_index_absent(rest, '】');
                    }
                    crate::engine::clone_chars(v)
                },
                Some(b) => {
                    proof {
                        lemma_first_index_unique(rest, '】', b as int - a - 1);
                        assert(rest.skip((b as int - a - 1) + 1) =~= v@.skip(b as int + 1));
                    }
                    let tail = crate::chars::subvec(v, b + 1, vl);
                    proof {
                        assert(tail@ =~= v@.skip(b as int + 1));
                    }
                    let stripped = strip_annotations(&tail);
                    let mut r = crate::chars::subvec(v, 0, a);
                    proof {
                        assert(v@.take(a as int) =~= v@.subrange(0, a as int));
                    }
                    append_chars(&mut r, &stripped);
                    r
                },
            }
        },
    }
}

/// `s` after the ordered single-character replacement pairs.
pub open spec fn apply_char_pairs(s: Seq<char>, pairs: Seq<(char, Vec<char>)>) -> Seq<char>
    decreases pairs.len(),
{
    if pairs.len() == 0 {
        s
    } else {
        apply_char_pairs(replace_all(s, seq![pairs[0].0], pairs[0].1@), pairs.drop_first())
    }
}

/// `s` after replacing each listed token with `to` in order.
pub open spec fn apply_tokens(s: Seq<char>, toks: Seq<Vec<char>>, to: Seq<char>) -> Seq<char>
    decreases toks.len(),
{
    if toks.len() == 0 {
        s
    } else {
        apply_tokens(replace_all(s, toks[0]@, to), toks.drop_first(), to)
    }
}

/// One-character vector.
fn single(c: char) -> (r: Vec<char>)
    ensures
        r@ =~= seq![c],
{
    let mut r: Vec<char> = Vec::new();
    r.push(c);
    r
}

/// Applies the single-character replacement pairs in order.
#[verifier::loop_isolation(false)]
fn apply_char_pairs_exec(text: Vec<char>, pairs: &Vec<(char, Vec<char>)>) -> (r: Vec<char>)
    ensures
        r@ == apply_char_pairs(text@, pairs@),
{
    let mut cur = text;
    let mut i: usize = 0;
    proof {
        assert(pairs@.skip(0) =~= pairs@);
    }
    while i < pairs.len()
        invariant
            i <= pairs@.len(),
            apply_char_pairs(cur@, pairs@.skip(i as int)) == apply_char_pairs(text@, pairs@),
        decreases pairs@.len() - i,
    {
        proof {
            let s = pairs@.skip(i as int);
            assert(s.drop_first() =~= pairs@.skip(i as int + 1));
            assert(s[0] == pairs@[i as int]);
        }
        let pat = single(pairs[i].0);
        let cur2 = replace_all_exec(&cur, &pat, &pairs[i].1);
        cur = cur2;
        i = i + 1;
    }
    proof {
        assert(pairs@.skip(pairs@.len() as int).len() == 0);
    }
    cur
}

/// Replaces each token with `to`, in order.
#[verifier::loop_isolation(false)]
fn apply_tokens_exec(text: Vec<char>, toks: &Vec<Vec<char>>, to: &Vec<char>) -> (r: Vec<char>)
    ensures
        r@ == apply_tokens(text@, toks@, to@),
{
    let mut cur = text;
    let mut i: usize = 0;
    proof {
        assert(toks@.skip(0) =~= toks@);
    }
    while i < toks.len()
        invariant
            i <= toks@.len(),
            apply_tokens(cur@, toks@.skip(i as int), to@) == apply_tokens(text@, toks@, to@),
        decreases toks@.len() - i,
    {
        proof {
            let s = toks@.skip(i as int);
            assert(s.drop_first() =~= toks@.skip(i as int + 1));
            assert(s[0] == toks@[i as int]);
        }
        let cur2 = replace_all_exec(&cur, &toks[i], to);
        cur = cur2;
        i = i + 1;
    }
    proof {
        assert(toks@.skip(toks@.len() as int).len() == 0);
    }
    cur
}

} // verus!

verus! {

/// The collapse-to-period compaction: a period repeating the previous
/// kept character is dropped, and a period that would open the line is
/// dropped too.
pub open spec fn compact_periods(s: Seq<char>, last: char, empty: bool) -> Seq<char>
    decreases s.len(),
{
    if s.len() == 0 {
        Seq::<char>::empty()
    } else if s[0] == '。' && last == '。' {
        compact_periods(s.drop_first(), last, empty)
    } else if empty && s[0] == '。' {
        compact_periods(s.drop_first(), last, empty)
    } else {
        seq![s[0]] + compact_periods(s.drop_first(), s[0], false)
    }
}

/// Runs the compaction.
#[verifier::loop_isolation(false)]
fn compact_periods_exec(text: &Vec<char>) -> (r: Vec<char>)
    ensures
        r@ == compact_periods(text@, '\u{0}', true),
{
    let mut acc: Vec<char> = Vec::new();
    let mut last: char = '\u{0}';
    let mut i: usize = 0;
    proof {
        assert(text@.skip(0) =~= text@);
    }
    while i < text.len()
        invariant
            i <= text@.len(),
            acc@.len() == 0 ==> last == '\u{0}',
            acc@ + compact_periods(text@.skip(i as int), last, acc@.len() == 0) == compact_periods(
                text@,
                '\u{0}',
                true,
            ),
        decreases text@.len() - i,
    {
        proof {
            let suf = text@.skip(i as int);
            assert(suf.drop_first() =~= text@.skip(i as int + 1));
        }
        let ch = text[i];
        if ch == '。' && last == '。' {
        } else if acc.len() == 0 && ch == '。' {
        } else {
            proof {
                let suf = text@.skip(i as int);
                assert(acc@.push(ch) + compact_periods(text@.skip(i as int + 1), ch, false) =~= acc@
                    + (seq![suf[0]] + compact_periods(suf.drop_first(), suf[0], false)));
            }
            acc.push(ch);
            last = ch;
        }
        i = i + 1;
    }
    proof {
        assert(text@.skip(text@.len() as int).len() == 0);
        assert(acc@ =~= acc@ + compact_periods(
            text@.skip(text@.len() as int),
            last,
            acc@.len() == 0,
        ));
    }
    acc
}

/// `s` after the book's replacement rules: the punctuation pairs, then
/// the numeral pairs, then the literal deletions.
pub open spec fn spec_apply_replacements(s: Seq<char>, rules: crate::config::ReplacementRules) -> Seq<
    char,
> {
    apply_tokens(
        apply_char_pairs(apply_char_pairs(s, rules.comma_pairs@), rules.number_pairs@),
        rules.delete_tokens@,
        Seq::<char>::empty(),
    )
}

/// Applies the book's replacement rules.
pub fn apply_replacements(text: &Vec<char>, rules: &crate::config::ReplacementRules) -> (r: Vec<
    char,
>)
    ensures
        r@ == spec_apply_replacements(text@, *rules),
{
    let t0 = crate::engine::clone_chars(text);
    let t1 = apply_char_pairs_exec(t0, &rules.comma_pairs);
    let t2 = apply_char_pairs_exec(t1, &rules.number_pairs);
    let empty: Vec<char> = Vec::new();
    apply_tokens_exec(t2, &rules.delete_tokens, &empty)
}

/// `s` after the punctuation-removal and collapse-to-period modes.
pub open spec fn spec_apply_text_modes(s: Seq<char>, modes: crate::config::TextModes) -> Seq<char> {
    let s1 = if modes.remove_punctuations {
        apply_tokens(s, modes.remove_tokens@, Seq::<char>::empty())
    } else {
        s
    };
    if modes.only_period {
        compact_periods(apply_tokens(s1, modes.only_period_tokens@, seq!['。']), '\u{0}', true)
    } else {
        s1
    }
}

/// Applies the text modes.
pub fn apply_text_modes(text: &Vec<char>, modes: &crate::config::TextModes) -> (r: Vec<char>)
    ensures
        r@ == spec_apply_text_modes(text@, *modes),
{
    let mut cur = crate::engine::clone_chars(text);
    if modes.remove_punctuations {
        let empty: Vec<char> = Vec::new();
        cur = apply_tokens_exec(cur, &modes.remove_tokens, &empty);
    }
    if modes.only_period {
        let period = single('。');
        let replaced = apply_tokens_exec(cur, &modes.only_period_tokens, &period);
        cur = compact_periods_exec(&replaced);
    }
    cur
}

/// The padding for a line of `a + b` slots, without forming the sum.
fn missing_spaces_sum(a: usize, b: usize, row_num: usize) -> (r: usize)
    requires
        row_num <= 1_000_000_000,
    ensures
        r as int == spec_missing(a as int + b as int, row_num as int),
        r <= row_num,
{
    if row_num == 0 {
        return 0;
    }
    proof {
        vstd::arithmetic::div_mod::lemma_mod_division_less_than_divisor(
            a as int,
            row_num as int,
        );
        vstd::arithmetic::div_mod::lemma_mod_division_less_than_divisor(
            b as int,
            row_num as int,
        );
        vstd::arithmetic::div_mod::lemma_add_mod_noop(a as int, b as int, row_num as int);
        vstd::arithmetic::div_mod::lemma_mod_division_less_than_divisor(
            a as int + b as int,
            row_num as int,
        );
    }
    let rem = (a % row_num + b % row_num) % row_num;
    if rem == 0 {
        0
    } else {
        row_num - rem
    }
}

/// `n` literal spaces.
pub open spec fn space_seq(n: int) -> Seq<char> {
    Seq::<char>::new(n as nat, |i: int| ' ')
}

/// One preprocessed line: whitespace stripped, rules applied, the
/// blank-slot placeholder turned into a space, and the line padded with
/// spaces so that its slot count ends on a column boundary.
pub open spec fn preprocess_line(raw: Seq<char>, book: crate::config::BookConfig) -> Seq<char> {
    let f = raw.filter(non_space());
    if f.len() == 0 {
        Seq::<char>::empty()
    } else {
        let cur = replace_all(
            spec_apply_text_modes(spec_apply_replacements(f, book.replacements), book.text_modes),
            seq!['@'],
            seq![' '],
        );
        let working0 = cur.filter(
            not_in_either(
                book.punctuation.text_nop.chars@,
                book.punctuation.comment_strip_chars@,
            ),
        );
        let working1 = if book.book_line_flag {
            working0.filter(not_bookline())
        } else {
            working0
        };
        let total = spec_strip_annotations(working1).len() + annotation_slots(working1);
        let missing = spec_missing(total as int, book.row_num as int);
        if 0 < missing < book.row_num {
            cur + space_seq(missing)
        } else {
            cur
        }
    }
}

/// Preprocesses one source line.
#[verifier::loop_isolation(false)]
pub fn process_line(line: &Vec<char>, book: &crate::config::BookConfig) -> (r: Vec<char>)
    requires
        book.row_num <= 1_000_000_000,
    ensures
        r@ == preprocess_line(line@, *book),
{
    let f = crate::chars::strip_spaces(line);
    if f.len() == 0 {
        return Vec::new();
    }
    let t1 = apply_replacements(&f, &book.replacements);
    let t2 = apply_text_modes(&t1, &book.text_modes);
    let at = single('@');
    let sp = single(' ');
    let cur = replace_all_exec(&t2, &at, &sp);
    let working0 = remove_chars(
        &cur,
        &book.punctuation.text_nop.chars,
        &book.punctuation.comment_strip_chars,
    );
    let working1 = if book.book_line_flag {
        remove_bookline_brackets(&working0)
    } else {
        working0
    };
    let extra = count_annotation_slots(&working1);
    let stripped = strip_annotations(&working1);
    let spaces = missing_spaces_sum(stripped.len(), extra, book.row_num);
    let mut out = crate::engine::clone_chars(&cur);
    if spaces > 0 && spaces < book.row_num {
        let ghost out0 = out@;
        let mut k: usize = 0;
        while k < spaces
            invariant
                k <= spaces,
                out@ =~= out0 + space_seq(k as int),
            decreases spaces - k,
        {
            out.push(' ');
            proof {
                assert(out@ =~= out0 + space_seq(k as int + 1));
            }
            k = k + 1;
        }
    }
    out
}

/// The whole preprocessed chapter: each newline-separated source line,
/// preprocessed and concatenated.
pub open spec fn spec_process_text(content: Seq<char>, book: crate::config::BookConfig) -> Seq<char>
    decreases content.len(),
    via process_text_decreases
{
    let a = first_index_of(content, '\n');
    if a >= content.len() {
        preprocess_line(content, book)
    } else {
        preprocess_line(content.take(a), book) + spec_process_text(content.skip(a + 1), book)
    }
}

#[via_fn]
proof fn process_text_decreases(content: Seq<char>, book: crate::config::BookConfig) {
    lemma_first_index_of(content, '\n');
}

/// Preprocesses a chapter's raw text into its flat character stream.
#[verifier::loop_isolation(false)]
pub fn process_text(content: &Vec<char>, book: &crate::config::BookConfig) -> (r: Vec<char>)
    requires
        book.row_num <= 1_000_000_000,
    ensures
        r@ == spec_process_text(content@, *book),
{
    let vl: usize = content.len();
    let mut out: Vec<char> = Vec::new();
    let mut i: usize = 0;
    proof {
        assert(content@.skip(0) =~= content@);
    }
    loop
        invariant
            i <= vl,
            vl == content@.len(),
            out@ + spec_process_text(content@.skip(i as int), *book) == spec_process_text(
                content@,
                *book,
            ),
        decreases vl - i,
    {
        let ghost suf = content@.skip(i as int);
        proof {
            lemma_first_index_of(suf, '\n');
            assert(forall|k: int| 0 <= k < suf.len() ==> suf[k] == content@[i as int + k]);
        }
        match crate::chars::find_char_from(content, '\n', i) {
            None => {
                proof {
                    lemma_first_index_absent(suf, '\n');
                    assert(suf.take(suf.len() as int) =~= suf);
                    assert(content@.subrange(i as int, vl as int) =~= suf);
                }
                let line = crate::chars::subvec(content, i, vl);
                let processed = process_line(&line, book);
                append_chars(&mut out, &processed);
                proof {
                    assert(spec_process_text(suf, *book) == preprocess_line(suf, *book));
                }
                return out;
            },
            Some(a) => {
                proof {
                    lemma_first_index_unique(suf, '\n', a as int - i);
                    assert(suf.take(a as int - i) =~= content@.subrange(i as int, a as int));
                    assert(suf.skip((a as int - i) + 1) =~= content@.skip(a as int + 1));
                }
                let line = crate::chars::subvec(content, i, a);
                let processed = process_line(&line, book);
                append_chars(&mut out, &processed);
                i = a + 1;
            },
        }
    }
}

} // verus!

verus! {

/// Why a corpus lookup failed.
#[derive(Debug, Clone, Copy, PartialEq, Eq, Structural)]
pub enum CorpusError {
    /// The requested chapter ordinal has no entry.
    MissingEntry { ordinal: usize },
}

/// One chapter's preprocessed text.
#[derive(Debug, Clone)]
pub struct TextEntry {
    /// The source file name the text came from.
    pub name: Vec<char>,
    /// The chapter ordinal.
    pub ordinal: usize,
    /// The preprocessed flat character stream.
    pub data: Vec<char>,
}

/// The ordinal-indexed, sparse collection of preprocessed chapters.
#[derive(Debug, Clone)]
pub struct TextCorpus {
    /// Entry for ordinal `i` sits at index `i`.
    pub entries: Vec<Option<TextEntry>>,
    /// Whether a zero-ordinal prologue entry exists.
    pub has_text000: bool,
    /// Whether the designated trailing appendix entry exists.
    pub has_text999: bool,
}

/// The highest index holding an entry, or 0 when none does.
pub open spec fn spec_total_entries(entries: Seq<Option<TextEntry>>) -> int
    decreases entries.len(),
{
    if entries.len() == 0 {
        0
    } else if entries.last() is Some {
        entries.len() - 1
    } else {
        spec_total_entries(entries.drop_last())
    }
}

impl TextCorpus {
    /// The entry for `idx`, or the error naming the missing ordinal.
    pub fn entry(&self, idx: usize) -> (r: Result<&TextEntry, CorpusError>)
        ensures
            match r {
                Ok(e) => idx < self.entries@.len() && self.entries@[idx as int] == Some(*e),
                Err(e) => (idx >= self.entries@.len() || self.entries@[idx as int] is None) && e
                    == (CorpusError::MissingEntry { ordinal: idx }),
            },
    {
        if idx >= self.entries.len() {
            return Err(CorpusError::MissingEntry { ordinal: idx });
        }
        match &self.entries[idx] {
            Some(e) => Ok(e),
            None => Err(CorpusError::MissingEntry { ordinal: idx }),
        }
    }

    /// The highest ordinal that holds an entry, or 0 when none does.
    pub fn total_entries(&self) -> (r: usize)
        ensures
            r as int == spec_total_entries(self.entries@),
            r < self.entries@.len() || r == 0,
            forall|k: int| r < k < self.entries@.len() ==> self.entries@[k] is None,
            (exists|k: int| 0 <= k < self.entries@.len() && self.entries@[k] is Some)
                ==> r < self.entries@.len() && self.entries@[r as int] is Some,
    {
        proof {
            assert(self.entries@.take(self.entries@.len() as int) =~= self.entries@);
        }
        let mut i: usize = self.entries.len();
        while i > 0
            invariant
                i <= self.entries@.len(),
                spec_total_entries(self.entries@) == spec_total_entries(
                    self.entries@.take(i as int),
                ),
                forall|k: int| i <= k < self.entries@.len() ==> self.entries@[k] is None,
            decreases i,
        {
            i = i - 1;
            proof {
                let t = self.entries@.take(i as int + 1);
                assert(t.last() == self.entries@[i as int]);
                assert(t.drop_last() =~= self.entries@.take(i as int));
            }
            if self.entries[i].is_some() {
                return i;
            }
        }
        proof {
            assert(self.entries@.take(0).len() == 0);
        }
        0
    }
}

} // verus!
