//! Character-level text utilities the relay is built on: conversion between
//! strings and character vectors, whitespace tokenization, literal substring
//! replacement, and decimal rendering of integers.

use vstd::prelude::*;

verus! {

/// Relies on `String::push`: appends exactly the one character to the string.
#[verifier::external_body]
pub fn push_char(s: &mut String, c: char)
    ensures
        final(s)@ == old(s)@.push(c),
{
    s.push(c);
}

/// The characters of a string slice, in order.
pub fn str_to_chars(s: &str) -> (v: Vec<char>)
    ensures
        v@ == s@,
{
    let n = s.unicode_len();
    let mut v: Vec<char> = Vec::new();
    let mut i: usize = 0;
    while i < n
        invariant
            n == s@.len(),
            i <= n,
            v@ == s@.take(i as int),
        decreases n - i,
    {
        v.push(s.get_char(i));
        proof {
            assert(s@.take(i + 1) =~= s@.take(i as int).push(s@[i as int]));
        }
        i = i + 1;
    }
    proof {
        assert(s@.take(n as int) =~= s@);
    }
    v
}

/// The string holding exactly the given characters, in order.
pub fn chars_to_string(v: &Vec<char>) -> (s: String)
    ensures
        s@ == v@,
{
    let mut s = String::new();
    let mut i: usize = 0;
    while i < v.len()
        invariant
            i <= v.len(),
            s@ == v@.take(i as int),
        decreases v.len() - i,
    {
        push_char(&mut s, v[i]);
        proof {
            assert(v@.take(i + 1) =~= v@.take(i as int).push(v@[i as int]));
        }
        i = i + 1;
    }
    proof {
        assert(v@.take(v@.len() as int) =~= v@);
    }
    s
}

/// Appends all of `src` to `dst`.
pub fn push_all(dst: &mut Vec<char>, src: &Vec<char>)
    ensures
        final(dst)@ == old(dst)@ + src@,
{
    let mut k: usize = 0;
    while k < src.len()
        invariant
            k <= src.len(),
            dst@ == old(dst)@ + src@.take(k as int),
        decreases src.len() - k,
    {
        dst.push(src[k]);
        proof {
            assert(old(dst)@ + src@.take(k + 1) =~= (old(dst)@ + src@.take(k as int)).push(
                src@[k as int],
            ));
        }
        k = k + 1;
    }
    proof {
        assert(src@.take(src@.len() as int) =~= src@);
    }
}

/// No two elements of the sequence are equal.
pub open spec fn seq_unique<A>(s: Seq<A>) -> bool {
    forall|i: int, j: int| 0 <= i < j < s.len() ==> s[i] != s[j]
}

/// Decides whether two string slices hold the same characters.
pub fn str_eq(a: &str, b: &str) -> (r: bool)
    ensures
        r == (a@ == b@),
{
    let na = a.unicode_len();
    let nb = b.unicode_len();
    if na != nb {
        return false;
    }
    let mut i: usize = 0;
    while i < na
        invariant
            na == a@.len(),
            na == b@.len(),
            i <= na,
            forall|j: int| 0 <= j < i ==> a@[j] == b@[j],
        decreases na - i,
    {
        if a.get_char(i) != b.get_char(i) {
            return false;
        }
        i = i + 1;
    }
    proof {
        assert(a@ =~= b@);
    }
    true
}

/// A fresh vector holding the same strings.
pub fn clone_string_vec(v: &Vec<String>) -> (r: Vec<String>)
    ensures
        r@ == v@,
{
    let mut r: Vec<String> = Vec::new();
    let mut i: usize = 0;
    while i < v.len()
        invariant
            i <= v.len(),
            r@ == v@.take(i as int),
        decreases v.len() - i,
    {
        r.push(v[i].clone());
        proof {
            assert(v@.take(i + 1) =~= v@.take(i as int).push(v@[i as int]));
        }
        i = i + 1;
    }
    proof {
        assert(v@.take(v@.len() as int) =~= v@);
    }
    r
}

/// Decides whether some string in `v` holds the characters of `x`.
pub fn vec_contains_str(v: &Vec<String>, x: &str) -> (b: bool)
    ensures
        b == v.deep_view().contains(x@),
{
    let mut i: usize = 0;
    while i < v.len()
        invariant
            i <= v.len(),
            forall|j: int| 0 <= j < i ==> v@[j]@ != x@,
        decreases v.len() - i,
    {
        if str_eq(v[i].as_str(), x) {
            proof {
                assert(v.deep_view()[i as int] == x@);
            }
            return true;
        }
        i = i + 1;
    }
    proof {
        assert forall|k: int| 0 <= k < v.deep_view().len() implies v.deep_view()[k] != x@ by {
            assert(v@[k]@ != x@);
        }
    }
    false
}

/// The position of the first string in `v` holding the characters of `x`.
pub fn vec_find_str(v: &Vec<String>, x: &str) -> (r: Option<usize>)
    ensures
        match r {
            Some(i) => i < v.len() && v@[i as int]@ == x@,
            None => !v.deep_view().contains(x@),
        },
{
    let mut i: usize = 0;
    while i < v.len()
        invariant
            i <= v.len(),
            forall|j: int| 0 <= j < i ==> v@[j]@ != x@,
        decreases v.len() - i,
    {
        if str_eq(v[i].as_str(), x) {
            return Some(i);
        }
        i = i + 1;
    }
    proof {
        assert forall|k: int| 0 <= k < v.deep_view().len() implies v.deep_view()[k] != x@ by {
            assert(v@[k]@ != x@);
        }
    }
    None
}

/// Appending an element extends a sequence's members by exactly it.
pub proof fn lemma_push_contains<A>(s: Seq<A>, x: A)
    ensures
        forall|y: A| #[trigger] s.push(x).contains(y) <==> (s.contains(y) || y == x),
{
    assert forall|y: A| #[trigger] s.push(x).contains(y) implies (s.contains(y) || y == x) by {
        let k = choose|k: int| 0 <= k < s.push(x).len() && s.push(x)[k] == y;
        if k < s.len() {
            assert(s[k] == y);
        }
    }
    assert forall|y: A| s.contains(y) || y == x implies #[trigger] s.push(x).contains(y) by {
        if s.contains(y) {
            let k = choose|k: int| 0 <= k < s.len() && s[k] == y;
            assert(s.push(x)[k] == y);
        } else {
            assert(s.push(x)[s.len() as int] == y);
        }
    }
}

/// Appending a fresh element keeps a sequence duplicate-free.
pub proof fn lemma_push_unique<A>(s: Seq<A>, x: A)
    requires
        seq_unique(s),
        !s.contains(x),
    ensures
        seq_unique(s.push(x)),
{
    assert forall|i: int, j: int| 0 <= i < j < s.push(x).len() implies s.push(x)[i] != s.push(
        x,
    )[j] by {
        if j == s.len() {
            assert(s.contains(s[i]));
        }
    }
}

/// Removing the only occurrence of a string from a duplicate-free
/// sequence removes exactly that string from the sequence's members.
pub proof fn lemma_unique_remove_contains(s: Seq<Seq<char>>, i: int, x: Seq<char>)
    requires
        seq_unique(s),
        0 <= i < s.len(),
        s[i] == x,
    ensures
        forall|y: Seq<char>| #[trigger] s.remove(i).contains(y) <==> (s.contains(y) && y != x),
        seq_unique(s.remove(i)),
{
    let r = s.remove(i);
    assert forall|y: Seq<char>| #[trigger] r.contains(y) implies (s.contains(y) && y != x) by {
        let k = choose|k: int| 0 <= k < r.len() && r[k] == y;
        if k < i {
            assert(s[k] == y);
        } else {
            assert(s[k + 1] == y);
        }
    }
    assert forall|y: Seq<char>| s.contains(y) && y != x implies r.contains(y) by {
        let k = choose|k: int| 0 <= k < s.len() && s[k] == y;
        if k < i {
            assert(r[k] == y);
        } else {
            assert(k != i);
            assert(r[k - 1] == y);
        }
    }
}

/// The Unicode White_Space property, the set `split_whitespace` breaks on.
pub open spec fn is_space(c: char) -> bool {
    let u = c as u32;
    (0x9 <= u && u <= 0xd) || u == 0x20 || u == 0x85 || u == 0xa0 || u == 0x1680 || (0x2000 <= u
        && u <= 0x200a) || u == 0x2028 || u == 0x2029 || u == 0x202f || u == 0x205f || u == 0x3000
}

/// Decides the White_Space property for one character.
pub fn is_space_char(c: char) -> (b: bool)
    ensures
        b == is_space(c),
{
    let u = c as u32;
    (0x9 <= u && u <= 0xd) || u == 0x20 || u == 0x85 || u == 0xa0 || u == 0x1680 || (0x2000 <= u
        && u <= 0x200a) || u == 0x2028 || u == 0x2029 || u == 0x202f || u == 0x205f || u == 0x3000
}

/// The whitespace-separated words of `s`, with `cur` the word in progress.
pub open spec fn spec_words_acc(s: Seq<char>, cur: Seq<char>) -> Seq<Seq<char>>
    decreases s.len(),
{
    if s.len() == 0 {
        if cur.len() > 0 {
            seq![cur]
        } else {
            Seq::empty()
        }
    } else if is_space(s[0]) {
        (if cur.len() > 0 {
            seq![cur]
        } else {
            Seq::empty()
        }) + spec_words_acc(s.drop_first(), Seq::empty())
    } else {
        spec_words_acc(s.drop_first(), cur.push(s[0]))
    }
}

/// The whitespace-separated words of `s`, as `split_whitespace` yields them.
pub open spec fn spec_words(s: Seq<char>) -> Seq<Seq<char>> {
    spec_words_acc(s, Seq::empty())
}

/// Every word produced by tokenization is non-empty.
pub proof fn lemma_words_nonempty(s: Seq<char>, cur: Seq<char>)
    ensures
        forall|i: int|
            #![trigger spec_words_acc(s, cur)[i]]
            0 <= i < spec_words_acc(s, cur).len() ==> spec_words_acc(s, cur)[i].len() > 0,
    decreases s.len(),
{
    if s.len() == 0 {
        if cur.len() > 0 {
            assert forall|i: int| 0 <= i < spec_words_acc(s, cur).len() implies #[trigger] spec_words_acc(
                s,
                cur,
            )[i].len() > 0 by {
                assert(spec_words_acc(s, cur)[i] == cur);
            }
        } else {
            assert(spec_words_acc(s, cur).len() == 0);
        }
    } else if is_space(s[0]) {
        lemma_words_nonempty(s.drop_first(), Seq::empty());
        let head = if cur.len() > 0 {
            seq![cur]
        } else {
            Seq::<Seq<char>>::empty()
        };
        let rest = spec_words_acc(s.drop_first(), Seq::empty());
        assert forall|i: int| 0 <= i < spec_words_acc(s, cur).len() implies #[trigger] spec_words_acc(
            s,
            cur,
        )[i].len() > 0 by {
            if i < head.len() {
                assert(spec_words_acc(s, cur)[i] == cur);
            } else {
                assert(spec_words_acc(s, cur)[i] == rest[i - head.len()]);
            }
        }
    } else {
        lemma_words_nonempty(s.drop_first(), cur.push(s[0]));
        assert(spec_words_acc(s, cur) == spec_words_acc(s.drop_first(), cur.push(s[0])));
        assert forall|i: int| 0 <= i < spec_words_acc(s, cur).len() implies #[trigger] spec_words_acc(
            s,
            cur,
        )[i].len() > 0 by {
            assert(spec_words_acc(s, cur)[i] == spec_words_acc(s.drop_first(), cur.push(s[0]))[i]);
        }
    }
}

/// Splits a character sequence into its whitespace-separated words.
pub fn split_words(s: &Vec<char>) -> (words: Vec<Vec<char>>)
    ensures
        words.deep_view() == spec_words(s@),
{
    let mut out: Vec<Vec<char>> = Vec::new();
    let mut cur: Vec<char> = Vec::new();
    let mut i: usize = 0;
    proof {
        assert(s@.skip(0) =~= s@);
        assert(out.deep_view() =~~= Seq::<Seq<char>>::empty());
        assert(out.deep_view() + spec_words_acc(s@, Seq::empty()) =~= spec_words_acc(
            s@,
            Seq::empty(),
        ));
    }
    while i < s.len()
        invariant
            i <= s.len(),
            spec_words(s@) == out.deep_view() + spec_words_acc(s@.skip(i as int), cur@),
        decreases s.len() - i,
    {
        let ghost pre = s@.skip(i as int);
        let ghost rest_words = spec_words_acc(s@.skip(i + 1), Seq::<char>::empty());
        proof {
            assert(pre.drop_first() =~= s@.skip(i + 1));
            assert(pre[0] == s@[i as int]);
        }
        if is_space_char(s[i]) {
            if cur.len() > 0 {
                let ghost old_deep = out.deep_view();
                let word = cur;
                cur = Vec::new();
                out.push(word);
                proof {
                    assert(out.deep_view() =~~= old_deep.push(word@));
                    assert(old_deep + (seq![word@] + rest_words) =~= old_deep.push(word@)
                        + rest_words);
                    assert(cur@ =~= Seq::<char>::empty());
                }
            } else {
                proof {
                    assert(cur@ =~= Seq::<char>::empty());
                    assert(Seq::<Seq<char>>::empty() + rest_words =~= rest_words);
                }
            }
        } else {
            cur.push(s[i]);
        }
        i = i + 1;
    }
    proof {
        assert(s@.skip(s@.len() as int) =~= Seq::<char>::empty());
    }
    if cur.len() > 0 {
        let ghost old_deep = out.deep_view();
        let ghost last = cur@;
        out.push(cur);
        proof {
            assert(out.deep_view() =~~= old_deep.push(last));
            assert(old_deep + seq![last] =~= old_deep.push(last));
        }
    } else {
        proof {
            assert(cur@ =~= Seq::<char>::empty());
            assert(out.deep_view() + Seq::<Seq<char>>::empty() =~= out.deep_view());
        }
    }
    out
}

/// True when `pat` occurs in `s` starting at index `i`.
pub open spec fn match_at(s: Seq<char>, pat: Seq<char>, i: int) -> bool {
    0 <= i && i + pat.len() <= s.len() && s.subrange(i, i + pat.len()) == pat
}

/// Decides whether `pat` occurs in `s` at index `i`.
pub fn matches_at(s: &Vec<char>, pat: &Vec<char>, i: usize) -> (b: bool)
    requires
        i <= s.len(),
    ensures
        b == match_at(s@, pat@, i as int),
{
    if s.len() - i < pat.len() {
        proof {
            assert(!match_at(s@, pat@, i as int));
        }
        return false;
    }
    let mut k: usize = 0;
    while k < pat.len()
        invariant
            k <= pat.len(),
            i + pat.len() <= s.len(),
            forall|j: int| 0 <= j < k ==> s@[i + j] == pat@[j],
        decreases pat.len() - k,
    {
        if s[i + k] != pat[k] {
            proof {
                assert(s@.subrange(i as int, i + pat@.len())[k as int] == s@[i + k]);
            }
            return false;
        }
        k = k + 1;
    }
    proof {
        assert(s@.subrange(i as int, i + pat@.len()) =~= pat@);
    }
    true
}

/// The result of replacing every non-overlapping occurrence of `from` in
/// `s` with `to`, scanning left to right, as `str::replace` does. An empty
/// `from` leaves `s` unchanged.
pub open spec fn spec_replace(s: Seq<char>, from: Seq<char>, to: Seq<char>) -> Seq<char>
    decreases s.len(),
{
    if from.len() == 0 || s.len() < from.len() {
        s
    } else if s.take(from.len() as int) == from {
        to + spec_replace(s.skip(from.len() as int), from, to)
    } else {
        seq![s[0]] + spec_replace(s.drop_first(), from, to)
    }
}

/// Replaces every non-overlapping occurrence of `from` with `to`, left to
/// right.
pub fn replace_chars(s: &Vec<char>, from: &Vec<char>, to: &Vec<char>) -> (r: Vec<char>)
    requires
        from.len() > 0,
    ensures
        r@ == spec_replace(s@, from@, to@),
{
    let mut out: Vec<char> = Vec::new();
    let mut i: usize = 0;
    proof {
        assert(s@.skip(0) =~= s@);
        assert(out@ + spec_replace(s@, from@, to@) =~= spec_replace(s@, from@, to@));
    }
    while i < s.len()
        invariant
            i <= s.len(),
            from@.len() > 0,
            spec_replace(s@, from@, to@) == out@ + spec_replace(s@.skip(i as int), from@, to@),
        decreases s.len() - i,
    {
        let ghost rest = s@.skip(i as int);
        if matches_at(s, from, i) {
            proof {
                assert(rest.take(from@.len() as int) =~= s@.subrange(i as int, i + from@.len()));
                assert(rest.skip(from@.len() as int) =~= s@.skip(i + from@.len()));
            }
            push_all(&mut out, to);
            i = i + from.len();
        } else {
            proof {
                assert(rest.len() >= from@.len() ==> rest.take(from@.len() as int) =~= s@.subrange(
                    i as int,
                    i + from@.len(),
                ));
                assert(rest.drop_first() =~= s@.skip(i + 1));
                assert(out@ + (seq![rest[0]] + spec_replace(s@.skip(i + 1), from@, to@)) =~= out@.push(
                    s@[i as int],
                ) + spec_replace(s@.skip(i + 1), from@, to@));
            }
            out.push(s[i]);
            i = i + 1;
        }
    }
    proof {
        assert(s@.skip(s@.len() as int) =~= Seq::<char>::empty());
    }
    out
}

/// The decimal digit character for `d`.
pub open spec fn spec_digit(d: int) -> char {
    if d == 0 {
        '0'
    } else if d == 1 {
        '1'
    } else if d == 2 {
        '2'
    } else if d == 3 {
        '3'
    } else if d == 4 {
        '4'
    } else if d == 5 {
        '5'
    } else if d == 6 {
        '6'
    } else if d == 7 {
        '7'
    } else if d == 8 {
        '8'
    } else {
        '9'
    }
}

/// The decimal rendering of a natural number, most significant digit first.
pub open spec fn spec_dec_nat(n: nat) -> Seq<char>
    decreases n,
{
    if n < 10 {
        seq![spec_digit(n as int)]
    } else {
        spec_dec_nat(n / 10) + seq![spec_digit((n % 10) as int)]
    }
}

/// The decimal rendering of an integer, with a leading minus sign when
/// negative.
pub open spec fn spec_dec_int(v: int) -> Seq<char> {
    if v < 0 {
        seq!['-'] + spec_dec_nat((-v) as nat)
    } else {
        spec_dec_nat(v as nat)
    }
}

fn digit_char(d: u64) -> (c: char)
    requires
        d < 10,
    ensures
        c == spec_digit(d as int),
{
    if d == 0 {
        '0'
    } else if d == 1 {
        '1'
    } else if d == 2 {
        '2'
    } else if d == 3 {
        '3'
    } else if d == 4 {
        '4'
    } else if d == 5 {
        '5'
    } else if d == 6 {
        '6'
    } else if d == 7 {
        '7'
    } else if d == 8 {
        '8'
    } else {
        '9'
    }
}

/// The decimal digits of `n`.
pub fn u64_to_chars(n: u64) -> (r: Vec<char>)
    ensures
        r@ == spec_dec_nat(n as nat),
    decreases n,
{
    if n < 10 {
        let mut v: Vec<char> = Vec::new();
        v.push(digit_char(n));
        v
    } else {
        let mut v = u64_to_chars(n / 10);
        v.push(digit_char(n % 10));
        proof {
            assert(v@ =~= spec_dec_nat((n / 10) as nat) + seq![
                spec_digit((n % 10) as int),
            ]);
        }
        v
    }
}

/// The decimal rendering of `n`, sign included.
pub fn i64_to_chars(n: i64) -> (r: Vec<char>)
    ensures
        r@ == spec_dec_int(n as int),
{
    if n >= 0 {
        u64_to_chars(n as u64)
    } else {
        let mag: u64 = ((-(n + 1)) as u64) + 1;
        assert(mag as int == -(n as int));
        let mut v: Vec<char> = Vec::new();
        v.push('-');
        let digits = u64_to_chars(mag);
        push_all(&mut v, &digits);
        proof {
            assert(v@ =~= seq!['-'] + spec_dec_nat(mag as nat));
        }
        v
    }
}

} // verus!
