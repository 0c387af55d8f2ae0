//! The raw key/value configuration text: `key = value` lines, `#`
//! comments, and the pipe-delimited list notations the book settings use.

use vstd::prelude::*;
use crate::chars::{non_space, spec_trim};
use crate::preprocess::first_index_of;

verus! {

/// The pieces of `s` split on `c`: an empty string is one empty piece,
/// and separators at the edges yield empty pieces.
pub open spec fn split_on(s: Seq<char>, c: char) -> Seq<Seq<char>>
    decreases s.len(),
    via split_on_decreases
{
    let a = first_index_of(s, c);
    if a >= s.len() {
        seq![s]
    } else {
        seq![s.take(a)] + split_on(s.skip(a + 1), c)
    }
}

#[via_fn]
proof fn split_on_decreases(s: Seq<char>, c: char) {
    crate::preprocess::lemma_first_index_of(s, c);
}

/// Splits `v` on `c`.
#[verifier::loop_isolation(false)]
pub fn split_on_exec(v: &Vec<char>, c: char) -> (r: Vec<Vec<char>>)
    ensures
        r@.map_values(|p: Vec<char>| p@) == split_on(v@, c),
{
    let vl: usize = v.len();
    let mut out: Vec<Vec<char>> = Vec::new();
    let mut i: usize = 0;
    proof {
        assert(v@.skip(0) =~= v@);
        assert(out@.map_values(|p: Vec<char>| p@) =~= Seq::<Seq<char>>::empty());
    }
    loop
        invariant
            i <= vl,
            vl == v@.len(),
            out@.map_values(|p: Vec<char>| p@) + split_on(v@.skip(i as int), c) == split_on(v@, c),
        decreases vl - i,
    {
        let ghost suf = v@.skip(i as int);
        proof {
            crate::preprocess::lemma_first_index_of(suf, c);
            assert(forall|k: int| 0 <= k < suf.len() ==> suf[k] == v@[i as int + k]);
        }
        match crate::chars::find_char_from(v, c, i) {
            None => {
                proof {
                    crate::preprocess::lemma_first_index_absent(suf, c);
                    assert(v@.subrange(i as int, vl as int) =~= suf);
                }
                let piece = crate::chars::subvec(v, i, vl);
                out.push(piece);
                proof {
                    assert(out@.map_values(|p: Vec<char>| p@) =~= old_map_push(out@, suf));
                    assert(split_on(suf, c) =~= seq![suf]);
                }
                return out;
            },
            Some(a) => {
                proof {
                    crate::preprocess::lemma_first_index_unique(suf, c, a as int - i);
                    assert(suf.take(a as int - i) =~= v@.subrange(i as int, a as int));
                    assert(suf.skip((a as int - i) + 1) =~= v@.skip(a as int + 1));
                }
                let piece = crate::chars::subvec(v, i, a);
                out.push(piece);
                proof {
                    assert(out@.map_values(|p: Vec<char>| p@) =~= old_map_push(
                        out@,
                        suf.take(a as int - i),
                    ));
                }
                i = a + 1;
            },
        }
    }
}

/// The mapped views of `out` with its freshly pushed last piece.
pub open spec fn old_map_push(out: Seq<Vec<char>>, piece: Seq<char>) -> Seq<Seq<char>> {
    out.drop_last().map_values(|p: Vec<char>| p@).push(piece)
}

} // verus!

verus! {

/// The non-empty pieces of a split.
pub open spec fn nonempty_pieces(parts: Seq<Seq<char>>) -> Seq<Seq<char>> {
    parts.filter(|p: Seq<char>| p.len() != 0)
}

/// A pipe-delimited token list: the non-empty pieces.
pub fn parse_token_list(value: Option<&Vec<char>>) -> (r: Vec<Vec<char>>)
    ensures
        r@.map_values(|p: Vec<char>| p@) == (match value {
            Some(v) => nonempty_pieces(split_on(v@, '|')),
            None => Seq::<Seq<char>>::empty(),
        }),
{
    let ghost fp = |p: Seq<char>| p.len() != 0;
    let v = match value {
        Some(v) => v,
        None => {
            let r: Vec<Vec<char>> = Vec::new();
            proof {
                assert(r@.map_values(|p: Vec<char>| p@) =~= Seq::<Seq<char>>::empty());
            }
            return r;
        },
    };
    let parts = split_on_exec(v, '|');
    let ghost gparts = parts@.map_values(|p: Vec<char>| p@);
    let mut out: Vec<Vec<char>> = Vec::new();
    let mut i: usize = 0;
    proof {
        assert(out@.map_values(|p: Vec<char>| p@) =~= gparts.subrange(0, 0).filter(fp));
        reveal_with_fuel(Seq::filter, 2);
    }
    while i < parts.len()
        invariant
            i <= parts@.len(),
            gparts == parts@.map_values(|p: Vec<char>| p@),
            fp == (|p: Seq<char>| p.len() != 0),
            out@.map_values(|p: Vec<char>| p@) == gparts.subrange(0, i as int).filter(fp),
        decreases parts@.len() - i,
    {
        proof {
            let s = gparts.subrange(0, i as int);
            let one = seq![gparts[i as int]];
            assert(gparts.subrange(0, i as int + 1) =~= s + one);
            Seq::filter_distributes_over_add(s, one, fp);
            reveal_with_fuel(Seq::filter, 2);
            assert(one.drop_last() =~= Seq::<Seq<char>>::empty());
            assert(one.filter(fp) == if fp(gparts[i as int]) {
                one
            } else {
                Seq::<Seq<char>>::empty()
            });
        }
        if parts[i].len() != 0 {
            let piece = crate::engine::clone_chars(&parts[i]);
            out.push(piece);
            proof {
                assert(out@.map_values(|p: Vec<char>| p@) =~= gparts.subrange(0, i as int).filter(
                    fp,
                ) + seq![gparts[i as int]]);
            }
        }
        i = i + 1;
    }
    proof {
        assert(gparts.subrange(0, gparts.len() as int) =~= gparts);
    }
    out
}

/// The first characters of the non-empty pieces of a pipe-delimited
/// list.
pub open spec fn pipe_firsts(parts: Seq<Seq<char>>) -> Seq<char> {
    nonempty_pieces(parts).map_values(|p: Seq<char>| p[0])
}

/// The first character of each pipe-delimited token.
pub fn parse_char_list_from_pipe(value: Option<&Vec<char>>) -> (r: Vec<char>)
    ensures
        r@ == (match value {
            Some(v) => pipe_firsts(split_on(v@, '|')),
            None => Seq::<char>::empty(),
        }),
{
    let toks = parse_token_list(value);
    let ghost gtoks = toks@.map_values(|p: Vec<char>| p@);
    let mut out: Vec<char> = Vec::new();
    let mut i: usize = 0;
    proof {
        assert(out@ =~= gtoks.subrange(0, 0).map_values(|p: Seq<char>| p[0]));
        if value is Some {
            assert(forall|k: int|
                0 <= k < gtoks.len() ==> (#[trigger] gtoks[k]).len() != 0) by {
                assert(forall|k: int|
                    0 <= k < gtoks.len() ==> #[trigger] gtoks[k] == nonempty_pieces(
                        split_on(value->Some_0@, '|'),
                    )[k]);
            }
        }
    }
    while i < toks.len()
        invariant
            i <= toks@.len(),
            gtoks == toks@.map_values(|p: Vec<char>| p@),
            forall|k: int| 0 <= k < gtoks.len() ==> (#[trigger] gtoks[k]).len() != 0,
            out@ == gtoks.subrange(0, i as int).map_values(|p: Seq<char>| p[0]),
        decreases toks@.len() - i,
    {
        proof {
            assert(gtoks.subrange(0, i as int + 1) =~= gtoks.subrange(0, i as int) + seq![
                gtoks[i as int],
            ]);
            assert((gtoks.subrange(0, i as int) + seq![gtoks[i as int]]).map_values(
                |p: Seq<char>| p[0],
            ) =~= gtoks.subrange(0, i as int).map_values(|p: Seq<char>| p[0]) + seq![
                gtoks[i as int][0],
            ]);
        }
        out.push(toks[i][0]);
        proof {
            assert(out@ =~= gtoks.subrange(0, i as int).map_values(|p: Seq<char>| p[0]) + seq![
                gtoks[i as int][0],
            ]);
        }
        i = i + 1;
    }
    proof {
        assert(gtoks.subrange(0, gtoks.len() as int) =~= gtoks);
        if value is Some {
            assert(out@ =~= pipe_firsts(split_on(value->Some_0@, '|'))) by {
                assert(gtoks =~= nonempty_pieces(split_on(value->Some_0@, '|')));
            }
        }
    }
    out
}

/// A flag is set exactly when its trimmed value is the digit one.
pub fn parse_bool(value: Option<&Vec<char>>) -> (r: bool)
    ensures
        r == (match value {
            Some(v) => spec_trim(v@) == seq!['1'],
            None => false,
        }),
{
    match value {
        Some(v) => {
            let t = crate::chars::trim(v);
            if t.len() == 1 && t[0] == '1' {
                proof {
                    assert(t@ =~= seq!['1']);
                }
                true
            } else {
                proof {
                    assert(t@ != seq!['1']) by {
                        if t@.len() == 1 && t@[0] == '1' {
                            assert(t@ =~= seq!['1']);
                        }
                    }
                }
                false
            }
        },
        None => false,
    }
}

/// The trimmed value, when it is non-empty.
pub fn parse_optional_string(value: Option<&Vec<char>>) -> (r: Option<Vec<char>>)
    ensures
        match value {
            Some(v) => (if spec_trim(v@).len() == 0 {
                r is None
            } else {
                r is Some && r->Some_0@ == spec_trim(v@)
            }),
            None => r is None,
        },
{
    match value {
        Some(v) => {
            let t = crate::chars::trim(v);
            if t.len() == 0 {
                None
            } else {
                Some(t)
            }
        },
        None => None,
    }
}

/// The replacement pairs of a pipe-delimited list: each non-empty piece
/// whose remainder after its first character is non-empty becomes a
/// pair.
pub open spec fn pipe_pairs(parts: Seq<Seq<char>>) -> Seq<(char, Seq<char>)>
    decreases parts.len(),
{
    if parts.len() == 0 {
        Seq::<(char, Seq<char>)>::empty()
    } else {
        let rest = pipe_pairs(parts.drop_first());
        if parts[0].len() >= 2 {
            seq![(parts[0][0], parts[0].skip(1))] + rest
        } else {
            rest
        }
    }
}

/// Parses single-character-to-string replacement pairs.
#[verifier::loop_isolation(false)]
pub fn parse_replace_pairs(value: Option<&Vec<char>>) -> (r: Vec<(char, Vec<char>)>)
    ensures
        r@.map_values(|q: (char, Vec<char>)| (q.0, q.1@)) == (match value {
            Some(v) => pipe_pairs(split_on(v@, '|')),
            None => Seq::<(char, Seq<char>)>::empty(),
        }),
{
    let v = match value {
        Some(v) => v,
        None => {
            let r: Vec<(char, Vec<char>)> = Vec::new();
            proof {
                assert(r@.map_values(|q: (char, Vec<char>)| (q.0, q.1@)) =~= Seq::<(
                    char,
                    Seq<char>,
                )>::empty());
            }
            return r;
        },
    };
    let parts = split_on_exec(v, '|');
    let ghost gparts = parts@.map_values(|p: Vec<char>| p@);
    let mut out: Vec<(char, Vec<char>)> = Vec::new();
    let mut i: usize = 0;
    proof {
        assert(gparts.skip(0) =~= gparts);
        assert(out@.map_values(|q: (char, Vec<char>)| (q.0, q.1@)) =~= Seq::<(
            char,
            Seq<char>,
        )>::empty());
    }
    while i < parts.len()
        invariant
            i <= parts@.len(),
            gparts == parts@.map_values(|p: Vec<char>| p@),
            out@.map_values(|q: (char, Vec<char>)| (q.0, q.1@)) + pipe_pairs(
                gparts.skip(i as int),
            ) == pipe_pairs(gparts),
        decreases parts@.len() - i,
    {
        let ghost m0 = out@.map_values(|q: (char, Vec<char>)| (q.0, q.1@));
        proof {
            let s = gparts.skip(i as int);
            assert(s.drop_first() =~= gparts.skip(i as int + 1));
            assert(s[0] == gparts[i as int]);
        }
        if parts[i].len() >= 2 {
            let key = parts[i][0];
            let val = crate::chars::subvec(&parts[i], 1, parts[i].len());
            proof {
                assert(val@ =~= gparts[i as int].skip(1));
            }
            out.push((key, val));
            proof {
                assert(out@.map_values(|q: (char, Vec<char>)| (q.0, q.1@)) =~= m0 + seq![
                    (gparts[i as int][0], gparts[i as int].skip(1)),
                ]);
                assert(m0 + (seq![(gparts[i as int][0], gparts[i as int].skip(1))] + pipe_pairs(
                    gparts.skip(i as int + 1),
                )) =~= (m0 + seq![(gparts[i as int][0], gparts[i as int].skip(1))]) + pipe_pairs(
                    gparts.skip(i as int + 1),
                ));
            }
        }
        i = i + 1;
    }
    proof {
        assert(gparts.skip(gparts.len() as int).len() == 0);
        assert(out@.map_values(|q: (char, Vec<char>)| (q.0, q.1@)) =~= out@.map_values(
            |q: (char, Vec<char>)| (q.0, q.1@),
        ) + pipe_pairs(gparts.skip(gparts.len() as int)));
    }
    out
}

/// The font-slot digits of a stack string: digits one through five, in
/// order.
pub open spec fn is_slot_digit(c: char) -> bool {
    '1' <= c && c <= '5'
}

/// Parses a font priority stack: each digit 1 to 5 in the string, in
/// order, as a slot id.
#[verifier::loop_isolation(false)]
pub fn parse_font_stack(value: Option<&Vec<char>>) -> (r: Vec<usize>)
    ensures
        r@ == (match value {
            Some(v) => v@.filter(|c: char| is_slot_digit(c)).map_values(
                |c: char| (c as int - '0' as int) as usize,
            ),
            None => Seq::<usize>::empty(),
        }),
{
    let ghost fp = |c: char| is_slot_digit(c);
    let ghost fm = |c: char| (c as int - '0' as int) as usize;
    let v = match value {
        Some(v) => v,
        None => {
            let r: Vec<usize> = Vec::new();
            proof {
                assert(r@ =~= Seq::<usize>::empty());
            }
            return r;
        },
    };
    let mut out: Vec<usize> = Vec::new();
    let mut i: usize = 0;
    proof {
        assert(out@ =~= v@.subrange(0, 0).filter(fp).map_values(fm));
        reveal_with_fuel(Seq::filter, 2);
    }
    while i < v.len()
        invariant
            i <= v@.len(),
            fp == (|c: char| is_slot_digit(c)),
            fm == (|c: char| (c as int - '0' as int) as usize),
            out@ == v@.subrange(0, i as int).filter(fp).map_values(fm),
        decreases v@.len() - i,
    {
        proof {
            let s = v@.subrange(0, i as int);
            let one = seq![v@[i as int]];
            assert(v@.subrange(0, i as int + 1) =~= s + one);
            Seq::filter_distributes_over_add(s, one, fp);
            reveal_with_fuel(Seq::filter, 2);
            assert(one.drop_last() =~= Seq::<char>::empty());
            assert(one.filter(fp) == if fp(v@[i as int]) {
                one
            } else {
                Seq::<char>::empty()
            });
            assert((s.filter(fp) + one.filter(fp)).map_values(fm) =~= s.filter(fp).map_values(fm)
                + one.filter(fp).map_values(fm));
            if fp(v@[i as int]) {
                assert(one.map_values(fm) =~= seq![fm(v@[i as int])]);
            } else {
                assert(one.filter(fp).map_values(fm) =~= Seq::<usize>::empty());
            }
        }
        let c = v[i];
        if '1' <= c && c <= '5' {
            out.push((c as u32 - '0' as u32) as usize);
            proof {
                assert(out@ =~= v@.subrange(0, i as int).filter(fp).map_values(fm) + seq![
                    fm(v@[i as int]),
                ]);
            }
        }
        i = i + 1;
    }
    proof {
        assert(v@.subrange(0, v@.len() as int) =~= v@);
    }
    out
}

} // verus!

verus! {

/// Whether two character vectors hold the same text.
pub fn chars_eq(a: &Vec<char>, b: &Vec<char>) -> (r: bool)
    ensures
        r == (a@ == b@),
{
    if a.len() != b.len() {
        return false;
    }
    let mut i: usize = 0;
    while i < a.len()
        invariant
            i <= a@.len(),
            a@.len() == b@.len(),
            forall|k: int| 0 <= k < i ==> a@[k] == b@[k],
        decreases a@.len() - i,
    {
        if a[i] != b[i] {
            return false;
        }
        i = i + 1;
    }
    proof {
        assert(a@ =~= b@);
    }
    true
}

/// Whether the line holds `=#`: such a line keeps its inline `#`.
pub open spec fn has_inline_marker(t: Seq<char>) -> bool {
    exists|i: int| 0 <= i && i + 1 < t.len() && t[i] == '=' && #[trigger] t[i + 1] == '#'
}

/// Scans for the `=#` marker.
fn find_inline_marker(t: &Vec<char>) -> (r: bool)
    ensures
        r == has_inline_marker(t@),
{
    if t.len() < 2 {
        return false;
    }
    let tl: usize = t.len();
    let mut i: usize = 0;
    while i < tl - 1
        invariant
            i <= tl - 1,
            2 <= tl == t@.len(),
            forall|k: int| 0 <= k && k + 1 < i + 1 ==> !(t@[k] == '=' && #[trigger] t@[k + 1] == '#'),
        decreases t@.len() - i,
    {
        if t[i] == '=' && t[i + 1] == '#' {
            proof {
                assert(t@[i as int] == '=' && t@[i as int + 1] == '#');
            }
            return true;
        }
        i = i + 1;
    }
    false
}

/// What a configuration line denotes: nothing for blank and comment
/// lines; otherwise the key and value around the first `=`, with all
/// whitespace collapsed away, and everything from an inline `#` dropped
/// unless the line holds `=#`.
pub open spec fn spec_parse_line(raw: Seq<char>) -> Option<(Seq<char>, Seq<char>)> {
    let t = spec_trim(raw);
    if t.len() == 0 || t[0] == '#' {
        None
    } else {
        let body = if has_inline_marker(t) {
            t
        } else {
            spec_trim(t.take(first_index_of(t, '#')))
        };
        if body.len() == 0 {
            None
        } else {
            let collapsed = body.filter(non_space());
            let e = first_index_of(collapsed, '=');
            let key = if e >= collapsed.len() {
                collapsed
            } else {
                collapsed.take(e)
            };
            let val = if e >= collapsed.len() {
                Seq::<char>::empty()
            } else {
                collapsed.skip(e + 1)
            };
            if key.len() == 0 {
                None
            } else {
                Some((key, val))
            }
        }
    }
}

/// Parses one configuration line.
pub fn parse_line(raw: &Vec<char>) -> (r: Option<(Vec<char>, Vec<char>)>)
    ensures
        match r {
            Some(kv) => spec_parse_line(raw@) == Some((kv.0@, kv.1@)),
            None => spec_parse_line(raw@) is None,
        },
{
    let t = crate::chars::trim(raw);
    if t.len() == 0 {
        return None;
    }
    if t[0] == '#' {
        return None;
    }
    let tl: usize = t.len();
    let body: Vec<char> = if find_inline_marker(&t) {
        t
    } else {
        proof {
            crate::preprocess::lemma_first_index_of(t@, '#');
        }
        let cut: usize = match crate::chars::find_char_from(&t, '#', 0) {
            Some(j) => {
                proof {
                    crate::preprocess::lemma_first_index_unique(t@, '#', j as int);
                }
                j
            },
            None => {
                proof {
                    crate::preprocess::lemma_first_index_absent(t@, '#');
                }
                tl
            },
        };
        let head = crate::chars::subvec(&t, 0, cut);
        proof {
            assert(head@ =~= t@.take(cut as int));
        }
        crate::chars::trim(&head)
    };
    if body.len() == 0 {
        return None;
    }
    let collapsed = crate::chars::strip_spaces(&body);
    proof {
        crate::preprocess::lemma_first_index_of(collapsed@, '=');
    }
    match crate::chars::find_char_from(&collapsed, '=', 0) {
        Some(e) => {
            proof {
                crate::preprocess::lemma_first_index_unique(collapsed@, '=', e as int);
            }
            let key = crate::chars::subvec(&collapsed, 0, e);
            let val = crate::chars::subvec(&collapsed, e + 1, collapsed.len());
            proof {
                assert(key@ =~= collapsed@.take(e as int));
                assert(val@ =~= collapsed@.skip(e as int + 1));
            }
            if key.len() == 0 {
                None
            } else {
                Some((key, val))
            }
        },
        None => {
            proof {
                crate::preprocess::lemma_first_index_absent(collapsed@, '=');
            }
            if collapsed.len() == 0 {
                None
            } else {
                let empty: Vec<char> = Vec::new();
                proof {
                    assert(empty@ =~= Seq::<char>::empty());
                }
                Some((collapsed, empty))
            }
        },
    }
}

/// The key/value pairs a configuration text denotes, in line order.
pub open spec fn spec_config_pairs(content: Seq<char>) -> Seq<(Seq<char>, Seq<char>)>
    decreases content.len(),
    via config_pairs_decreases
{
    let a = first_index_of(content, '\n');
    let line = if a >= content.len() {
        content
    } else {
        content.take(a)
    };
    let this = match spec_parse_line(line) {
        Some(kv) => seq![kv],
        None => Seq::<(Seq<char>, Seq<char>)>::empty(),
    };
    if a >= content.len() {
        this
    } else {
        this + spec_config_pairs(content.skip(a + 1))
    }
}

#[via_fn]
proof fn config_pairs_decreases(content: Seq<char>) {
    crate::preprocess::lemma_first_index_of(content, '\n');
}

/// Why a configuration value was rejected.
#[derive(Debug, Clone, Copy, PartialEq, Eq, Structural)]
pub enum RawError {
    /// The key has no line.
    MissingKey,
    /// The value is not an unsigned decimal number in range.
    BadNumber,
}

/// The last value stored for `key`: later lines override earlier ones.
pub open spec fn spec_lookup(data: Seq<(Vec<char>, Vec<char>)>, key: Seq<char>) -> Option<
    Vec<char>,
>
    decreases data.len(),
{
    if data.len() == 0 {
        None
    } else if data.last().0@ == key {
        Some(data.last().1)
    } else {
        spec_lookup(data.drop_last(), key)
    }
}

/// The raw key/value configuration: the parsed lines in order.
#[derive(Debug, Clone)]
pub struct RawConfig {
    pub data: Vec<(Vec<char>, Vec<char>)>,
}

impl RawConfig {
    /// Parses a whole configuration text.
    #[verifier::loop_isolation(false)]
    pub fn from_text(content: &Vec<char>) -> (r: RawConfig)
        ensures
            r.data@.map_values(|p: (Vec<char>, Vec<char>)| (p.0@, p.1@)) == spec_config_pairs(
                content@,
            ),
    {
        let vl: usize = content.len();
        let mut data: Vec<(Vec<char>, Vec<char>)> = Vec::new();
        let mut i: usize = 0;
        proof {
            assert(content@.skip(0) =~= content@);
            assert(data@.map_values(|p: (Vec<char>, Vec<char>)| (p.0@, p.1@)) =~= Seq::<(
                Seq<char>,
                Seq<char>,
            )>::empty());
        }
        loop
            invariant
                i <= vl,
                vl == content@.len(),
                data@.map_values(|p: (Vec<char>, Vec<char>)| (p.0@, p.1@)) + spec_config_pairs(
                    content@.skip(i as int),
                ) == spec_config_pairs(content@),
            decreases vl - i,
        {
            let ghost suf = content@.skip(i as int);
            let ghost m0 = data@.map_values(|p: (Vec<char>, Vec<char>)| (p.0@, p.1@));
            proof {
                crate::preprocess::lemma_first_index_of(suf, '\n');
                assert(forall|k: int| 0 <= k < suf.len() ==> suf[k] == content@[i as int + k]);
            }
            match crate::chars::find_char_from(content, '\n', i) {
                None => {
                    proof {
                        crate::preprocess::lemma_first_index_absent(suf, '\n');
                        assert(content@.subrange(i as int, vl as int) =~= suf);
                    }
                    let line = crate::chars::subvec(content, i, vl);
                    if let Some(kv) = parse_line(&line) {
                        data.push(kv);
                        proof {
                            assert(data@.map_values(|p: (Vec<char>, Vec<char>)| (p.0@, p.1@)) =~= m0
                                + seq![(data@.last().0@, data@.last().1@)]);
                        }
                    }
                    return RawConfig { data };
                },
                Some(a) => {
                    proof {
                        crate::preprocess::lemma_first_index_unique(suf, '\n', a as int - i);
                        assert(suf.take(a as int - i) =~= content@.subrange(i as int, a as int));
                        assert(suf.skip((a as int - i) + 1) =~= content@.skip(a as int + 1));
                    }
                    let line = crate::chars::subvec(content, i, a);
                    if let Some(kv) = parse_line(&line) {
                        data.push(kv);
                        proof {
                            assert(data@.map_values(|p: (Vec<char>, Vec<char>)| (p.0@, p.1@)) =~= m0
                                + seq![(data@.last().0@, data@.last().1@)]);
                            assert((m0 + seq![(data@.last().0@, data@.last().1@)])
                                + spec_config_pairs(content@.skip(a as int + 1)) =~= m0 + (seq![
                                (data@.last().0@, data@.last().1@),
                            ] + spec_config_pairs(content@.skip(a as int + 1))));
                        }
                    }
                    i = a + 1;
                },
            }
        }
    }

    /// The stored value for `key`, if any line set it.
    pub fn get(&self, key: &Vec<char>) -> (r: Option<&Vec<char>>)
        ensures
            match r {
                Some(v) => spec_lookup(self.data@, key@) == Some(*v),
                None => spec_lookup(self.data@, key@) is None,
            },
    {
        proof {
            assert(self.data@.take(self.data@.len() as int) =~= self.data@);
        }
        let mut i: usize = self.data.len();
        while i > 0
            invariant
                i <= self.data@.len(),
                spec_lookup(self.data@, key@) == spec_lookup(self.data@.take(i as int), key@),
            decreases i,
        {
            i = i - 1;
            proof {
                let t = self.data@.take(i as int + 1);
                assert(t.last() == self.data@[i as int]);
                assert(t.drop_last() =~= self.data@.take(i as int));
            }
            if chars_eq(&self.data[i].0, key) {
                return Some(&self.data[i].1);
            }
        }
        proof {
            assert(self.data@.take(0).len() == 0);
        }
        None
    }

    /// The stored value for `key`, or the missing-key error.
    pub fn require(&self, key: &Vec<char>) -> (r: Result<&Vec<char>, RawError>)
        ensures
            match r {
                Ok(v) => spec_lookup(self.data@, key@) == Some(*v),
                Err(e) => spec_lookup(self.data@, key@) is None && e == RawError::MissingKey,
            },
    {
        match self.get(key) {
            Some(v) => Ok(v),
            None => Err(RawError::MissingKey),
        }
    }
}

} // verus!

verus! {

/// Whether every character is an ASCII decimal digit.
pub open spec fn all_digits(s: Seq<char>) -> bool {
    forall|k: int| 0 <= k < s.len() ==> '0' <= #[trigger] s[k] && s[k] <= '9'
}

/// The decimal value of a digit string, most significant first.
pub open spec fn digits_value(s: Seq<char>) -> int
    decreases s.len(),
{
    if s.len() == 0 {
        0
    } else {
        digits_value(s.drop_last()) * 10 + (s.last() as int - '0' as int)
    }
}

/// A digit string's value is non-negative.
pub proof fn lemma_digits_value_nonneg(s: Seq<char>)
    requires
        all_digits(s),
    ensures
        digits_value(s) >= 0,
    decreases s.len(),
{
    if s.len() > 0 {
        let d = s.drop_last();
        assert(forall|k: int| 0 <= k < d.len() ==> d[k] == s[k]);
        lemma_digits_value_nonneg(d);
    }
}

/// A digit string's value only grows as digits are appended.
pub proof fn lemma_digits_value_prefix(s: Seq<char>, i: int)
    requires
        all_digits(s),
        0 <= i <= s.len(),
    ensures
        digits_value(s.take(i)) <= digits_value(s),
    decreases s.len() - i,
{
    if i < s.len() {
        lemma_digits_value_prefix(s, i + 1);
        let t = s.take(i + 1);
        assert(forall|k: int| 0 <= k < t.len() ==> t[k] == s[k]);
        assert(t.drop_last() =~= s.take(i));
        lemma_digits_value_nonneg(s.take(i));
        assert(digits_value(s.take(i)) * 10 >= digits_value(s.take(i))) by (nonlinear_arith)
            requires
                digits_value(s.take(i)) >= 0,
        ;
    } else {
        assert(s.take(i) =~= s);
    }
}

/// What an unsigned decimal value string denotes: an optional leading
/// plus sign, then at least one digit.
pub open spec fn spec_parse_usize(s: Seq<char>) -> Option<int> {
    let body = if s.len() > 0 && s[0] == '+' {
        s.drop_first()
    } else {
        s
    };
    if body.len() >= 1 && all_digits(body) {
        Some(digits_value(body))
    } else {
        None
    }
}

impl RawConfig {
    /// The value stored for `key` read as an unsigned decimal number:
    /// the missing-key error when no line set it, the bad-number error
    /// when the value is not a plain decimal or does not fit.
    #[verifier::loop_isolation(false)]
    pub fn parse_value(&self, key: &Vec<char>) -> (r: Result<usize, RawError>)
        ensures
            match r {
                Ok(n) => spec_lookup(self.data@, key@) is Some && spec_parse_usize(
                    spec_lookup(self.data@, key@)->Some_0@,
                ) == Some(n as int),
                Err(e) => match e {
                    RawError::MissingKey => spec_lookup(self.data@, key@) is None,
                    RawError::BadNumber => spec_lookup(self.data@, key@) is Some && (match
                        spec_parse_usize(spec_lookup(self.data@, key@)->Some_0@) {
                        Some(n) => n > usize::MAX,
                        None => true,
                    }),
                },
            },
    {
        let v = match self.require(key) {
            Ok(v) => v,
            Err(_) => {
                return Err(RawError::MissingKey);
            },
        };
        let vl: usize = v.len();
        let start: usize = if vl > 0 && v[0] == '+' {
            1
        } else {
            0
        };
        let ghost body = if v@.len() > 0 && v@[0] == '+' {
            v@.drop_first()
        } else {
            v@
        };
        proof {
            assert(body =~= v@.subrange(start as int, vl as int));
        }
        if start == vl {
            return Err(RawError::BadNumber);
        }
        let mut acc: usize = 0;
        let mut i: usize = start;
        proof {
            assert(body.take(0) =~= Seq::<char>::empty());
        }
        while i < vl
            invariant
                start <= i <= vl,
                vl == v@.len(),
                body == v@.subrange(start as int, vl as int),
                all_digits(body.take(i as int - start)),
                acc as int == digits_value(body.take(i as int - start)),
            decreases vl - i,
        {
            let c = v[i];
            if c < '0' || c > '9' {
                proof {
                    assert(body[i as int - start] == c);
                    assert(!all_digits(body));
                }
                return Err(RawError::BadNumber);
            }
            let d: usize = (c as u32 - '0' as u32) as usize;
            proof {
                let t = body.take(i as int - start + 1);
                assert(forall|k: int| 0 <= k < t.len() ==> t[k] == body[k]);
                assert(t.drop_last() =~= body.take(i as int - start));
                assert(digits_value(t) == acc as int * 10 + d);
            }
            let shifted = match acc.checked_mul(10) {
                Some(x) => x,
                None => {
                    proof {
                        lemma_digits_value_overflow(body, i as int - start + 1, acc as int, d as int);
                    }
                    return Err(RawError::BadNumber);
                },
            };
            let next = match shifted.checked_add(d) {
                Some(x) => x,
                None => {
                    proof {
                        lemma_digits_value_overflow(body, i as int - start + 1, acc as int, d as int);
                    }
                    return Err(RawError::BadNumber);
                },
            };
            acc = next;
            i = i + 1;
        }
        proof {
            assert(body.take(vl as int - start) =~= body);
        }
        Ok(acc)
    }
}

/// If a digit prefix's value already exceeds the machine range, so does
/// the whole string's, or the string is not all digits.
proof fn lemma_digits_value_overflow(body: Seq<char>, j: int, acc: int, d: int)
    requires
        0 < j <= body.len(),
        all_digits(body.take(j)),
        digits_value(body.take(j)) == acc * 10 + d,
        acc * 10 + d > usize::MAX,
    ensures
        !all_digits(body) || digits_value(body) > usize::MAX,
{
    if all_digits(body) {
        lemma_digits_value_prefix(body, j);
    }
}

} // verus!
