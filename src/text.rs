//! Character-level helpers: whitespace tokens, splitting on a delimiter and
//! building `String`s out of characters.

use vstd::prelude::*;

verus! {

/// The characters that `char::is_ascii_whitespace` accepts.
pub open spec fn is_ascii_ws(c: char) -> bool {
    c == ' ' || c == '\t' || c == '\n' || c == '\x0C' || c == '\r'
}

/// Relies on `String::push`: the character is appended at the end.
#[verifier::external_body]
pub(crate) fn push_char(s: &mut String, c: char)
    ensures
        final(s)@ == old(s)@.push(c),
{
    s.push(c);
}

/// The characters of `s`, in order.
pub fn chars_of(s: &str) -> (r: Vec<char>)
    ensures
        r@ == s@,
{
    let mut r: Vec<char> = Vec::new();
    for c in it: s.chars()
        invariant
            r@ == it.seq().take(it.index() as int),
    {
        r.push(c);
    }
    r
}


/// A `String` holding the characters of `cs`.
pub fn string_of(cs: &Vec<char>) -> (r: String)
    ensures
        r@ == cs@,
{
    let mut r = String::new();
    let mut i: usize = 0;
    while i < cs.len()
        invariant
            i <= cs.len(),
            r@ == cs@.take(i as int),
        decreases cs.len() - i,
    {
        push_char(&mut r, cs[i]);
        i = i + 1;
        assert(r@ =~= cs@.take(i as int));
    }
    assert(cs@.take(i as int) =~= cs@);
    r
}

/// Appends the characters of `cs` to `out`.
pub fn push_chars(out: &mut String, cs: &Vec<char>)
    ensures
        final(out)@ == old(out)@ + cs@,
{
    let ghost start = out@;
    let mut i: usize = 0;
    while i < cs.len()
        invariant
            i <= cs.len(),
            out@ == start + cs@.take(i as int),
        decreases cs.len() - i,
    {
        push_char(out, cs[i]);
        i = i + 1;
        assert(out@ =~= start + cs@.take(i as int));
    }
    assert(cs@.take(i as int) =~= cs@);
}

/// Appends the characters of `s` to `out`.
pub fn push_str(out: &mut String, s: &String)
    ensures
        final(out)@ == old(out)@ + s@,
{
    let cs = chars_of(s.as_str());
    push_chars(out, &cs);
}

/// Scanning state of `ws_fields`: the tokens completed so far and the one
/// being read.
pub open spec fn ws_scan(s: Seq<char>) -> (Seq<Seq<char>>, Seq<char>)
    decreases s.len(),
{
    if s.len() == 0 {
        (seq![], seq![])
    } else {
        let (done, cur) = ws_scan(s.drop_last());
        if is_ascii_ws(s.last()) {
            if cur.len() > 0 {
                (done.push(cur), seq![])
            } else {
                (done, seq![])
            }
        } else {
            (done, cur.push(s.last()))
        }
    }
}

/// The maximal runs of non-whitespace characters of `s`, in order (what
/// `split_ascii_whitespace` yields).
pub open spec fn ws_fields(s: Seq<char>) -> Seq<Seq<char>> {
    let (done, cur) = ws_scan(s);
    if cur.len() > 0 {
        done.push(cur)
    } else {
        done
    }
}

/// The character sequences held by a vector of character vectors.
pub open spec fn views_of(v: Seq<Vec<char>>) -> Seq<Seq<char>> {
    v.map_values(|t: Vec<char>| t@)
}

/// Splits `s` into its whitespace-separated tokens.
pub fn split_ws(s: &Vec<char>) -> (r: Vec<Vec<char>>)
    ensures
        views_of(r@) == ws_fields(s@),
{
    let mut done: Vec<Vec<char>> = Vec::new();
    let mut cur: Vec<char> = Vec::new();
    let mut i: usize = 0;
    while i < s.len()
        invariant
            i <= s.len(),
            ws_scan(s@.take(i as int)) == (views_of(done@), cur@),
        decreases s.len() - i,
    {
        let c = s[i];
        assert(s@.take(i + 1).drop_last() =~= s@.take(i as int));
        if c == ' ' || c == '\t' || c == '\n' || c == '\x0C' || c == '\r' {
            if cur.len() > 0 {
                let ghost before = views_of(done@);
                done.push(cur);
                assert(views_of(done@) =~= before.push(cur@));
                cur = Vec::new();
            }
        } else {
            cur.push(c);
        }
        i = i + 1;
        assert(ws_scan(s@.take(i as int)) == (views_of(done@), cur@));
    }
    assert(s@.take(i as int) =~= s@);
    if cur.len() > 0 {
        let ghost before = views_of(done@);
        done.push(cur);
        assert(views_of(done@) =~= before.push(cur@));
    }
    done
}

/// The pieces of `s` between occurrences of `d` (what `str::split` yields):
/// always at least one piece.
pub open spec fn split_on(s: Seq<char>, d: char) -> Seq<Seq<char>>
    decreases s.len(),
{
    if s.len() == 0 {
        seq![seq![]]
    } else {
        let init = split_on(s.drop_last(), d);
        if s.last() == d {
            init.push(seq![])
        } else {
            init.update(init.len() - 1, init.last().push(s.last()))
        }
    }
}

pub proof fn lemma_split_on_nonempty(s: Seq<char>, d: char)
    ensures
        split_on(s, d).len() >= 1,
    decreases s.len(),
{
    if s.len() > 0 {
        lemma_split_on_nonempty(s.drop_last(), d);
    }
}

/// Splits `s` at every occurrence of `d`.
pub fn split_char(s: &Vec<char>, d: char) -> (r: Vec<Vec<char>>)
    ensures
        views_of(r@) == split_on(s@, d),
        r@.len() >= 1,
{
    let mut done: Vec<Vec<char>> = Vec::new();
    let mut cur: Vec<char> = Vec::new();
    let mut i: usize = 0;
    while i < s.len()
        invariant
            i <= s.len(),
            split_on(s@.take(i as int), d) == views_of(done@).push(cur@),
        decreases s.len() - i,
    {
        let c = s[i];
        assert(s@.take(i + 1).drop_last() =~= s@.take(i as int));
        let ghost before = views_of(done@);
        if c == d {
            done.push(cur);
            assert(views_of(done@) =~= before.push(cur@));
            cur = Vec::new();
        } else {
            cur.push(c);
        }
        i = i + 1;
        assert(split_on(s@.take(i as int), d) =~= views_of(done@).push(cur@));
    }
    assert(s@.take(i as int) =~= s@);
    let ghost before = views_of(done@);
    done.push(cur);
    assert(views_of(done@) =~= before.push(cur@));
    done
}

/// The index of the first `d` in `s`, if any.
pub open spec fn find_char(s: Seq<char>, d: char) -> Option<int>
    decreases s.len(),
{
    if s.len() == 0 {
        None
    } else {
        match find_char(s.drop_last(), d) {
            Some(i) => Some(i),
            None => if s.last() == d {
                Some(s.len() - 1)
            } else {
                None
            },
        }
    }
}

/// Position of the first `d` in `s`.
pub fn find(s: &Vec<char>, d: char) -> (r: Option<usize>)
    ensures
        match find_char(s@, d) {
            Some(i) => r == Some(i as usize),
            None => r is None,
        },
{
    let mut i: usize = 0;
    while i < s.len()
        invariant
            i <= s.len(),
            find_char(s@.take(i as int), d) is None,
        decreases s.len() - i,
    {
        assert(s@.take(i + 1).drop_last() =~= s@.take(i as int));
        if s[i] == d {
            assert(find_char(s@.take(i + 1), d) == Some(i as int));
            proof { lemma_find_char_prefix(s@, d, i + 1); }
            return Some(i);
        }
        i = i + 1;
    }
    assert(s@.take(i as int) =~= s@);
    None
}

/// A first occurrence within a prefix is the first occurrence.
pub proof fn lemma_find_char_prefix(s: Seq<char>, d: char, n: int)
    requires
        0 <= n <= s.len(),
        find_char(s.take(n), d) is Some,
    ensures
        find_char(s, d) == find_char(s.take(n), d),
    decreases s.len() - n,
{
    if n < s.len() {
        assert(s.take(n + 1).drop_last() =~= s.take(n));
        lemma_find_char_prefix(s, d, n + 1);
    } else {
        assert(s.take(n) =~= s);
    }
}

/// The part of `s` from `lo` up to `hi`.
pub fn slice_of(s: &Vec<char>, lo: usize, hi: usize) -> (r: Vec<char>)
    requires
        lo <= hi <= s.len(),
    ensures
        r@ == s@.subrange(lo as int, hi as int),
{
    let mut r: Vec<char> = Vec::new();
    let mut i: usize = lo;
    while i < hi
        invariant
            lo <= i <= hi <= s.len(),
            r@ == s@.subrange(lo as int, i as int),
        decreases hi - i,
    {
        r.push(s[i]);
        i = i + 1;
        assert(r@ =~= s@.subrange(lo as int, i as int));
    }
    r
}

/// Whether two character vectors hold the same characters.
pub fn same_chars(a: &Vec<char>, b: &Vec<char>) -> (r: bool)
    ensures
        r == (a@ == b@),
{
    if a.len() != b.len() {
        return false;
    }
    let mut i: usize = 0;
    while i < a.len()
        invariant
            i <= a.len() == b.len(),
            a@.take(i as int) == b@.take(i as int),
        decreases a.len() - i,
    {
        if a[i] != b[i] {
            return false;
        }
        i = i + 1;
        assert(a@.take(i as int) =~= b@.take(i as int));
    }
    assert(a@ =~= a@.take(i as int));
    assert(b@ =~= b@.take(i as int));
    true
}

} // verus!

verus! {

/// The characters of an optional string.
pub open spec fn opt_chars(o: Option<String>) -> Option<Seq<char>> {
    match o {
        Some(s) => Some(s@),
        None => None,
    }
}

/// The characters of each string of a sequence.
pub open spec fn strings_chars(v: Seq<String>) -> Seq<Seq<char>> {
    v.map_values(|t: String| t@)
}

} // verus!

verus! {

/// The pieces of `parts` with `sep` between each two.
pub open spec fn join(parts: Seq<Seq<char>>, sep: char) -> Seq<char>
    decreases parts.len(),
{
    if parts.len() == 0 {
        seq![]
    } else if parts.len() == 1 {
        parts[0]
    } else {
        join(parts.drop_last(), sep).push(sep) + parts.last()
    }
}

/// Appends the strings of `parts` with `sep` between each two.
pub fn push_joined(out: &mut String, parts: &Vec<String>, sep: char)
    ensures
        final(out)@ == old(out)@ + join(strings_chars(parts@), sep),
{
    let ghost start = out@;
    let mut i: usize = 0;
    while i < parts.len()
        invariant
            i <= parts.len(),
            out@ == start + join(strings_chars(parts@.take(i as int)), sep),
        decreases parts.len() - i,
    {
        let ghost before = out@;
        if i > 0 {
            push_char(out, sep);
        }
        push_str(out, &parts[i]);
        i = i + 1;
        assert(strings_chars(parts@.take(i as int)).drop_last() =~= strings_chars(
            parts@.take(i - 1),
        ));
        assert(out@ =~= start + join(strings_chars(parts@.take(i as int)), sep));
    }
    assert(parts@.take(i as int) =~= parts@);
}

} // verus!

verus! {

/// `s` without ASCII whitespace at its start.
pub open spec fn trim_start_ws(s: Seq<char>) -> Seq<char>
    decreases s.len(),
{
    if s.len() > 0 && is_ascii_ws(s[0]) {
        trim_start_ws(s.drop_first())
    } else {
        s
    }
}

/// `s` without ASCII whitespace at its end.
pub open spec fn trim_end_ws(s: Seq<char>) -> Seq<char>
    decreases s.len(),
{
    if s.len() > 0 && is_ascii_ws(s.last()) {
        trim_end_ws(s.drop_last())
    } else {
        s
    }
}

/// `s` without ASCII whitespace at either end.
pub open spec fn trim_ws(s: Seq<char>) -> Seq<char> {
    trim_end_ws(trim_start_ws(s))
}

fn is_ws(c: char) -> (r: bool)
    ensures
        r == is_ascii_ws(c),
{
    c == ' ' || c == '\t' || c == '\n' || c == '\x0C' || c == '\r'
}

/// The characters of `s` without ASCII whitespace at either end.
pub fn trim(s: &Vec<char>) -> (r: Vec<char>)
    ensures
        r@ == trim_ws(s@),
{
    let mut lo: usize = 0;
    assert(s@.skip(0) =~= s@);
    while lo < s.len() && is_ws(s[lo])
        invariant
            lo <= s.len(),
            trim_start_ws(s@) == trim_start_ws(s@.skip(lo as int)),
        decreases s.len() - lo,
    {
        assert(s@.skip(lo as int).drop_first() =~= s@.skip(lo + 1));
        lo = lo + 1;
    }
    assert(trim_start_ws(s@.skip(lo as int)) == s@.skip(lo as int));
    assert(s@.skip(lo as int) =~= s@.subrange(lo as int, s@.len() as int));
    let mut hi: usize = s.len();
    while hi > lo && is_ws(s[hi - 1])
        invariant
            lo <= hi <= s.len(),
            trim_ws(s@) == trim_end_ws(s@.subrange(lo as int, hi as int)),
        decreases hi,
    {
        assert(s@.subrange(lo as int, hi as int).drop_last() =~= s@.subrange(lo as int, hi - 1));
        hi = hi - 1;
    }
    slice_of(s, lo, hi)
}

} // verus!

verus! {

/// A non-empty run of characters none of which is whitespace.
pub open spec fn is_token(t: Seq<char>) -> bool {
    t.len() > 0 && forall|i: int| 0 <= i < t.len() ==> !is_ascii_ws(#[trigger] t[i])
}

/// No character of `s` is `d`.
pub open spec fn free_of(s: Seq<char>, d: char) -> bool {
    forall|i: int| 0 <= i < s.len() ==> #[trigger] s[i] != d
}

/// Appending characters that are no whitespace extends the current token.
pub proof fn lemma_ws_scan_extend(x: Seq<char>, t: Seq<char>)
    requires
        forall|i: int| 0 <= i < t.len() ==> !is_ascii_ws(#[trigger] t[i]),
    ensures
        ws_scan(x + t) == (ws_scan(x).0, ws_scan(x).1 + t),
    decreases t.len(),
{
    if t.len() == 0 {
        assert(x + t =~= x);
        assert(ws_scan(x).1 + t =~= ws_scan(x).1);
    } else {
        let t0 = t.drop_last();
        lemma_ws_scan_extend(x, t0);
        assert((x + t).drop_last() =~= x + t0);
        assert((x + t).last() == t.last());
        assert(ws_scan(x).1 + t0 + seq![t.last()] =~= ws_scan(x).1 + t);
    }
}

/// Tokens joined by single spaces split back into those tokens.
pub proof fn lemma_ws_join(ts: Seq<Seq<char>>)
    requires
        ts.len() > 0,
        forall|i: int| 0 <= i < ts.len() ==> is_token(#[trigger] ts[i]),
    ensures
        ws_scan(join(ts, ' ')) == (ts.drop_last(), ts.last()),
        ws_fields(join(ts, ' ')) == ts,
    decreases ts.len(),
{
    assert(is_token(ts.last()));
    if ts.len() == 1 {
        lemma_ws_scan_extend(seq![], ts[0]);
        assert(seq![] + ts[0] =~= ts[0]);
        assert(ws_scan(seq![]) == (Seq::<Seq<char>>::empty(), Seq::<char>::empty()));
        assert(ts.drop_last() =~= seq![]);
        assert(Seq::<char>::empty() + ts[0] =~= ts[0]);
    } else {
        let init = ts.drop_last();
        assert forall|i: int| 0 <= i < init.len() implies is_token(#[trigger] init[i]) by {
            assert(init[i] == ts[i]);
        }
        lemma_ws_join(init);
        let x = join(init, ' ').push(' ');
        assert(x.drop_last() =~= join(init, ' '));
        assert(ws_scan(x) == (init.drop_last().push(init.last()), Seq::<char>::empty()));
        assert(init.drop_last().push(init.last()) =~= init);
        lemma_ws_scan_extend(x, ts.last());
        assert(Seq::<char>::empty() + ts.last() =~= ts.last());
    }
    assert(ts.drop_last().push(ts.last()) =~= ts);
}

/// Appending characters other than `d` extends the last piece.
pub proof fn lemma_split_on_extend(x: Seq<char>, t: Seq<char>, d: char)
    requires
        free_of(t, d),
    ensures
        split_on(x + t, d) == split_on(x, d).update(
            split_on(x, d).len() - 1,
            split_on(x, d).last() + t,
        ),
    decreases t.len(),
{
    lemma_split_on_nonempty(x, d);
    if t.len() == 0 {
        assert(x + t =~= x);
        assert(split_on(x, d).last() + t =~= split_on(x, d).last());
        assert(split_on(x, d).update(split_on(x, d).len() - 1, split_on(x, d).last())
            =~= split_on(x, d));
    } else {
        let t0 = t.drop_last();
        lemma_split_on_extend(x, t0, d);
        assert((x + t).drop_last() =~= x + t0);
        assert((x + t).last() == t.last());
        assert(t.last() != d);
        assert((split_on(x, d).last() + t0).push(t.last()) =~= split_on(x, d).last() + t);
        assert(split_on(x + t, d) =~= split_on(x, d).update(
            split_on(x, d).len() - 1,
            split_on(x, d).last() + t,
        ));
    }
}

/// Pieces without `d`, joined by `d`, split back into those pieces.
pub proof fn lemma_split_join(ts: Seq<Seq<char>>, d: char)
    requires
        ts.len() > 0,
        forall|i: int| 0 <= i < ts.len() ==> free_of(#[trigger] ts[i], d),
    ensures
        split_on(join(ts, d), d) == ts,
    decreases ts.len(),
{
    assert(free_of(ts.last(), d));
    if ts.len() == 1 {
        lemma_split_on_extend(seq![], ts[0], d);
        assert(seq![] + ts[0] =~= ts[0]);
        assert(split_on(seq![], d) =~= seq![seq![]]);
        assert(Seq::<char>::empty() + ts[0] =~= ts[0]);
        assert(split_on(ts[0], d) =~= ts);
    } else {
        let init = ts.drop_last();
        assert forall|i: int| 0 <= i < init.len() implies free_of(#[trigger] init[i], d) by {
            assert(init[i] == ts[i]);
        }
        lemma_split_join(init, d);
        let x = join(init, d).push(d);
        assert(x.drop_last() =~= join(init, d));
        assert(split_on(x, d) == init.push(seq![]));
        lemma_split_on_extend(x, ts.last(), d);
        assert(Seq::<char>::empty() + ts.last() =~= ts.last());
        assert(init.push(seq![]).update(init.len() as int, ts.last()) =~= ts);
    }
}

/// The first `d` of `x + [d] + y`, when `x` has none, is right after `x`.
pub proof fn lemma_find_char_after(x: Seq<char>, d: char, y: Seq<char>)
    requires
        free_of(x, d),
    ensures
        find_char(x.push(d) + y, d) == Some(x.len() as int),
{
    lemma_find_char_none(x, d);
    let s = x.push(d) + y;
    assert(s.take(x.len() + 1int) =~= x.push(d));
    assert(x.push(d).drop_last() =~= x);
    lemma_find_char_prefix(s, d, x.len() + 1int);
}

pub proof fn lemma_find_char_none(x: Seq<char>, d: char)
    requires
        free_of(x, d),
    ensures
        find_char(x, d) is None,
    decreases x.len(),
{
    if x.len() > 0 {
        let x0 = x.drop_last();
        assert forall|i: int| 0 <= i < x0.len() implies #[trigger] x0[i] != d by {
            assert(x0[i] == x[i]);
        }
        lemma_find_char_none(x0, d);
    }
}

} // verus!

verus! {

/// The tokens of `ws_fields` are tokens.
pub proof fn lemma_ws_fields_tokens(s: Seq<char>)
    ensures
        forall|i: int| 0 <= i < ws_fields(s).len() ==> is_token(#[trigger] ws_fields(s)[i]),
{
    lemma_ws_scan_tokens(s);
}

proof fn lemma_ws_scan_tokens(s: Seq<char>)
    ensures
        forall|i: int| 0 <= i < ws_scan(s).0.len() ==> is_token(#[trigger] ws_scan(s).0[i]),
        forall|i: int| 0 <= i < ws_scan(s).1.len() ==> !is_ascii_ws(#[trigger] ws_scan(s).1[i]),
    decreases s.len(),
{
    if s.len() > 0 {
        lemma_ws_scan_tokens(s.drop_last());
        let (done, cur) = ws_scan(s.drop_last());
        if !is_ascii_ws(s.last()) {
            let c2 = cur.push(s.last());
            assert forall|i: int| 0 <= i < c2.len() implies !is_ascii_ws(#[trigger] c2[i]) by {
                if i < cur.len() {
                    assert(c2[i] == cur[i]);
                }
            }
        } else if cur.len() > 0 {
            let d2 = done.push(cur);
            assert forall|i: int| 0 <= i < d2.len() implies is_token(#[trigger] d2[i]) by {
                if i < done.len() {
                    assert(d2[i] == done[i]);
                }
            }
        }
    }
}

/// Every piece of `split_on(s, d)` is free of `d`, and of any character
/// that `s` is free of.
pub proof fn lemma_split_on_pieces(s: Seq<char>, d: char, c: char)
    ensures
        forall|i: int| 0 <= i < split_on(s, d).len() ==> free_of(#[trigger] split_on(s, d)[i], d),
        free_of(s, c) ==> forall|i: int|
            0 <= i < split_on(s, d).len() ==> free_of(#[trigger] split_on(s, d)[i], c),
    decreases s.len(),
{
    if s.len() > 0 {
        let s0 = s.drop_last();
        lemma_split_on_pieces(s0, d, c);
        lemma_split_on_nonempty(s0, d);
        let init = split_on(s0, d);
        if free_of(s, c) {
            assert(free_of(s0, c)) by {
                assert forall|j: int| 0 <= j < s0.len() implies #[trigger] s0[j] != c by {
                    assert(s0[j] == s[j]);
                }
            }
        }
        if s.last() == d {
            let r = init.push(seq![]);
            assert forall|i: int| 0 <= i < r.len() implies free_of(#[trigger] r[i], d) by {
                if i < init.len() {
                    assert(r[i] == init[i]);
                }
            }
            if free_of(s, c) {
                assert forall|i: int| 0 <= i < r.len() implies free_of(#[trigger] r[i], c) by {
                    if i < init.len() {
                        assert(r[i] == init[i]);
                    }
                }
            }
        } else {
            let l = init.last().push(s.last());
            let r = init.update(init.len() - 1, l);
            assert(free_of(init[init.len() - 1], d));
            assert forall|i: int| 0 <= i < r.len() implies free_of(#[trigger] r[i], d) by {
                if i < init.len() - 1 {
                    assert(r[i] == init[i]);
                } else {
                    assert forall|j: int| 0 <= j < l.len() implies #[trigger] l[j] != d by {
                        if j < l.len() - 1 {
                            assert(l[j] == init[init.len() - 1][j]);
                        }
                    }
                }
            }
            if free_of(s, c) {
                assert(s[s.len() - 1] != c);
                assert(free_of(init[init.len() - 1], c));
                assert forall|i: int| 0 <= i < r.len() implies free_of(#[trigger] r[i], c) by {
                    if i < init.len() - 1 {
                        assert(r[i] == init[i]);
                    } else {
                        assert forall|j: int| 0 <= j < l.len() implies #[trigger] l[j] != c by {
                            if j < l.len() - 1 {
                                assert(l[j] == init[init.len() - 1][j]);
                            }
                        }
                    }
                }
            }
        }
    }
}

/// Before the first `d` there is no `d`.
pub proof fn lemma_find_char_first(s: Seq<char>, d: char)
    ensures
        match find_char(s, d) {
            Some(i) => 0 <= i < s.len() && s[i] == d && free_of(s.take(i), d),
            None => free_of(s, d),
        },
    decreases s.len(),
{
    if s.len() > 0 {
        let s0 = s.drop_last();
        lemma_find_char_first(s0, d);
        match find_char(s0, d) {
            Some(i) => {
                assert(s.take(i) =~= s0.take(i));
            },
            None => {
                if s.last() == d {
                    assert(s.take(s.len() - 1) =~= s0);
                } else {
                    assert forall|j: int| 0 <= j < s.len() implies #[trigger] s[j] != d by {
                        if j < s.len() - 1 {
                            assert(s[j] == s0[j]);
                        }
                    }
                }
            },
        }
    }
}

} // verus!
