//! Character-level text utilities: conversion between strings and character
//! vectors, whitespace splitting, substring search, suffix stripping and
//! decimal rendering of numbers.
use vstd::prelude::*;
use vstd::std_specs::iter::IteratorSpec;

verus! {

broadcast use vstd::string::group_string_axioms;

/// `String::push` appends one character at the end of the string.
pub assume_specification[ String::push ](s: &mut String, ch: char)
    ensures
        final(s)@ == old(s)@.push(ch),
;

/// The characters of a string, in order.
pub fn chars_of(s: &str) -> (v: Vec<char>)
    ensures
        v@ == s@,
{
    let mut v: Vec<char> = Vec::new();
    let mut it = s.chars();
    loop
        invariant
            it.obeys_prophetic_iter_laws(),
            v@ + it.remaining() == s@,
            it.decrease() is Some,
        ensures
            v@ == s@,
        decreases it.decrease()->0,
    {
        let ghost before = it;
        match it.next() {
            Some(c) => {
                assert(before.remaining().len() > 0);
                v.push(c);
                assert(v@ + it.remaining() =~= s@);
            },
            None => {
                assert(v@ =~= s@);
                break ;
            },
        }
    }
    v
}

/// A string made of the given characters.
pub fn string_of(cs: &[char]) -> (s: String)
    ensures
        s@ == cs@,
{
    let mut s = String::new();
    let mut i: usize = 0;
    while i < cs.len()
        invariant
            i <= cs@.len(),
            s@ == cs@.subrange(0, i as int),
        decreases cs@.len() - i,
    {
        s.push(cs[i]);
        assert(s@ =~= cs@.subrange(0, i + 1));
        i = i + 1;
    }
    assert(cs@.subrange(0, cs@.len() as int) =~= cs@);
    s
}


/// The characters that `char::is_whitespace` accepts: those with the Unicode
/// `White_Space` property.
pub open spec fn is_white(c: char) -> bool {
    let u = c as u32;
    ||| 0x09 <= u <= 0x0d
    ||| u == 0x20
    ||| u == 0x85
    ||| u == 0xa0
    ||| u == 0x1680
    ||| 0x2000 <= u <= 0x200a
    ||| u == 0x2028
    ||| u == 0x2029
    ||| u == 0x202f
    ||| u == 0x205f
    ||| u == 0x3000
}

/// Whether `c` is a whitespace character.
pub fn is_white_char(c: char) -> (r: bool)
    ensures
        r == is_white(c),
{
    let u = c as u32;
    (0x09 <= u && u <= 0x0d) || u == 0x20 || u == 0x85 || u == 0xa0 || u == 0x1680 || (0x2000 <= u
        && u <= 0x200a) || u == 0x2028 || u == 0x2029 || u == 0x202f || u == 0x205f || u == 0x3000
}

/// Scanning `s` left to right: the words completed so far and the word under
/// way (empty between words).
pub open spec fn scan_words(s: Seq<char>) -> (Seq<Seq<char>>, Seq<char>)
    decreases s.len(),
{
    if s.len() == 0 {
        (seq![], seq![])
    } else {
        let (done, cur) = scan_words(s.drop_last());
        if is_white(s.last()) {
            if cur.len() > 0 {
                (done.push(cur), seq![])
            } else {
                (done, cur)
            }
        } else {
            (done, cur.push(s.last()))
        }
    }
}

/// The maximal runs of non-whitespace characters of `s`, in order: what
/// `str::split_whitespace` yields.
pub open spec fn words(s: Seq<char>) -> Seq<Seq<char>> {
    let (done, cur) = scan_words(s);
    if cur.len() > 0 {
        done.push(cur)
    } else {
        done
    }
}

/// The whitespace-separated words of a line.
pub fn split_words(s: &str) -> (w: Vec<String>)
    ensures
        w.deep_view() == words(s@),
{
    let cs = chars_of(s);
    let mut done: Vec<String> = Vec::new();
    let mut cur = String::new();
    let mut i: usize = 0;
    while i < cs.len()
        invariant
            cs@ == s@,
            i <= cs@.len(),
            done.deep_view() == scan_words(cs@.take(i as int)).0,
            cur@ == scan_words(cs@.take(i as int)).1,
        decreases cs@.len() - i,
    {
        let c = cs[i];
        assert(cs@.take(i + 1).drop_last() =~= cs@.take(i as int));
        if is_white_char(c) {
            if cur.as_str().unicode_len() > 0 {
                let w = cur;
                done.push(w);
                cur = String::new();
                assert(done.deep_view() =~= scan_words(cs@.take(i + 1)).0);
            }
        } else {
            cur.push(c);
        }
        i = i + 1;
    }
    assert(cs@.take(cs@.len() as int) =~= cs@);
    if cur.as_str().unicode_len() > 0 {
        done.push(cur);
        assert(done.deep_view() =~= words(s@));
    }
    done
}

/// Whether two texts are equal.
pub fn same_text(a: &str, b: &str) -> (r: bool)
    ensures
        r == (a@ == b@),
{
    let x = a.to_owned();
    let y = b.to_owned();
    x == y
}


/// A string made of the characters `cs[lo..hi]`.
pub fn string_of_range(cs: &Vec<char>, lo: usize, hi: usize) -> (s: String)
    requires
        lo <= hi <= cs@.len(),
    ensures
        s@ == cs@.subrange(lo as int, hi as int),
{
    let mut s = String::new();
    let mut i: usize = lo;
    while i < hi
        invariant
            lo <= i <= hi <= cs@.len(),
            s@ == cs@.subrange(lo as int, i as int),
        decreases hi - i,
    {
        s.push(cs[i]);
        assert(s@ =~= cs@.subrange(lo as int, i + 1));
        i = i + 1;
    }
    s
}

/// `n` occurs in `h` starting at position `i`.
pub open spec fn occurs_at(h: Seq<char>, n: Seq<char>, i: int) -> bool {
    0 <= i && i + n.len() <= h.len() && h.subrange(i, i + n.len()) == n
}

/// `n` occurs somewhere in `h` (what `str::contains` answers).
pub open spec fn contains_text(h: Seq<char>, n: Seq<char>) -> bool {
    exists|i: int| occurs_at(h, n, i)
}

/// The first position at or after `from` where `n` occurs in `h`.
pub open spec fn first_occurrence(h: Seq<char>, n: Seq<char>, from: int) -> Option<int>
    decreases h.len() + 1 - from,
{
    if from < 0 || from + n.len() > h.len() {
        None
    } else if occurs_at(h, n, from) {
        Some(from)
    } else {
        first_occurrence(h, n, from + 1)
    }
}

/// What `first_occurrence` finds is the least occurrence at or after `from`.
pub proof fn lemma_first_occurrence(h: Seq<char>, n: Seq<char>, from: int)
    requires
        0 <= from,
    ensures
        first_occurrence(h, n, from) matches Some(j) ==> from <= j && occurs_at(h, n, j) && (
        forall|k: int| from <= k < j ==> !occurs_at(h, n, k)),
        first_occurrence(h, n, from) is None ==> forall|k: int| from <= k ==> !occurs_at(h, n, k),
    decreases h.len() + 1 - from,
{
    if from + n.len() > h.len() {
    } else if occurs_at(h, n, from) {
    } else {
        lemma_first_occurrence(h, n, from + 1);
    }
}

/// Whether `n` occurs in `h` at position `i`.
fn matches_at(h: &Vec<char>, n: &Vec<char>, i: usize) -> (r: bool)
    requires
        i + n@.len() <= h@.len(),
    ensures
        r == occurs_at(h@, n@, i as int),
{
    let h_len: usize = h.len();
    let mut k: usize = 0;
    while k < n.len()
        invariant
            i + n@.len() <= h@.len(),
            h_len == h@.len(),
            k <= n@.len(),
            forall|j: int| 0 <= j < k ==> h@[i + j] == n@[j],
        decreases n@.len() - k,
    {
        if h[i + k] != n[k] {
            assert(h@.subrange(i as int, i + n@.len())[k as int] != n@[k as int]);
            return false;
        }
        k = k + 1;
    }
    assert(h@.subrange(i as int, i + n@.len()) =~= n@);
    true
}

/// The first position at or after `from` where `n` occurs in `h`.
pub fn find_from(h: &Vec<char>, n: &Vec<char>, from: usize) -> (r: Option<usize>)
    ensures
        r matches Some(j) ==> first_occurrence(h@, n@, from as int) == Some(j as int),
        r is None ==> first_occurrence(h@, n@, from as int) is None,
{
    if n.len() > h.len() {
        return None;
    }
    let last = h.len() - n.len();
    let mut i: usize = from;
    while i <= last
        invariant
            last + n@.len() == h@.len(),
            from <= i,
            first_occurrence(h@, n@, from as int) == first_occurrence(h@, n@, i as int),
        decreases last + 1 - i,
    {
        if matches_at(h, n, i) {
            return Some(i);
        }
        if i == last {
            return None;
        }
        i = i + 1;
    }
    None
}

/// Whether `n` occurs in `h`.
pub fn contains_chars(h: &Vec<char>, n: &Vec<char>) -> (r: bool)
    ensures
        r == contains_text(h@, n@),
{
    proof {
        lemma_first_occurrence(h@, n@, 0);
    }
    find_from(h, n, 0).is_some()
}

/// Whether the text `n` occurs in the text `h`.
pub fn contains_str(h: &str, n: &str) -> (r: bool)
    ensures
        r == contains_text(h@, n@),
{
    let hc = chars_of(h);
    let nc = chars_of(n);
    contains_chars(&hc, &nc)
}

/// `s` ends with `suffix`.
pub open spec fn ends_with(s: Seq<char>, suffix: Seq<char>) -> bool {
    suffix.len() <= s.len() && s.subrange(s.len() - suffix.len(), s.len() as int) == suffix
}

/// How a timestamp is shown: without its `+00:00` suffix, or `err` where it
/// does not end so.
pub open spec fn shown_time(s: Seq<char>) -> Seq<char> {
    if ends_with(s, "+00:00"@) {
        s.subrange(0, s.len() - "+00:00"@.len())
    } else {
        "err"@
    }
}

/// Whether `s` ends with `suffix`.
pub fn ends_with_chars(s: &Vec<char>, suffix: &Vec<char>) -> (r: bool)
    ensures
        r == ends_with(s@, suffix@),
{
    if suffix.len() > s.len() {
        return false;
    }
    let start = s.len() - suffix.len();
    let r = matches_at(s, suffix, start);
    r
}

/// The timestamp `s` as it is shown.
pub fn show_time(s: &str) -> (r: String)
    ensures
        r@ == shown_time(s@),
{
    let cs = chars_of(s);
    let suffix = chars_of("+00:00");
    if ends_with_chars(&cs, &suffix) {
        string_of_range(&cs, 0, cs.len() - suffix.len())
    } else {
        "err".to_owned()
    }
}

/// The name for what `str::to_lowercase` gives for a text.
pub uninterp spec fn lowercase(s: Seq<char>) -> Seq<char>;

/// Calls `str::to_lowercase`; its result is named `lowercase` of the text.
/// Nothing more is claimed of it here.
#[verifier::external_body]
pub(crate) fn to_lower(s: &str) -> (r: String)
    ensures
        r@ == lowercase(s@),
{
    s.to_lowercase()
}


/// The character of the decimal digit `d`.
pub open spec fn digit_char(d: nat) -> char {
    (d + 48) as char
}

/// The decimal representation of `n`, as `Display` writes an unsigned integer.
pub open spec fn decimal(n: nat) -> Seq<char>
    decreases n,
{
    if n < 10 {
        seq![digit_char(n)]
    } else {
        decimal(n / 10).push(digit_char(n % 10))
    }
}

/// The decimal representation of `n`, left-padded with zeros to at least
/// `width` characters (the `{:0width}` format of an unsigned integer).
pub open spec fn zero_padded(n: nat, width: nat) -> Seq<char> {
    let d = decimal(n);
    if d.len() < width {
        Seq::new((width - d.len()) as nat, |i: int| '0') + d
    } else {
        d
    }
}

/// Appends the decimal representation of `n` to `s`.
pub fn push_decimal(s: &mut String, n: u64)
    ensures
        final(s)@ == old(s)@ + decimal(n as nat),
    decreases n,
{
    if n >= 10 {
        push_decimal(s, n / 10);
    }
    let d: u64 = n % 10;
    let c = ((d as u8) + 48u8) as char;
    assert(c == digit_char(d as nat));
    s.push(c);
    assert(s@ =~= old(s)@ + decimal(n as nat));
}

/// The decimal representation of `n`.
pub fn decimal_string(n: u64) -> (s: String)
    ensures
        s@ == decimal(n as nat),
{
    let mut s = String::new();
    push_decimal(&mut s, n);
    assert(s@ =~= decimal(n as nat));
    s
}


/// `c` is an ASCII decimal digit.
pub open spec fn is_digit(c: char) -> bool {
    48 <= (c as u32) <= 57
}

/// The number that the decimal digits `s` write.
pub open spec fn digits_value(s: Seq<char>) -> nat
    decreases s.len(),
{
    if s.len() == 0 {
        0
    } else {
        digits_value(s.drop_last()) * 10 + ((s.last() as u32) - 48) as nat
    }
}

/// What `str::parse::<usize>` gives for `s`: an optional `+`, then at least
/// one decimal digit and nothing else, with a value that fits in `usize`.
pub open spec fn parsed_usize(s: Seq<char>) -> Option<nat> {
    let body = unsigned_body(s);
    if body.len() > 0 && (forall|i: int| 0 <= i < body.len() ==> is_digit(#[trigger] body[i]))
        && digits_value(body) <= usize::MAX {
        Some(digits_value(body))
    } else {
        None
    }
}

/// The part of `s` after an optional leading `+`.
pub open spec fn unsigned_body(s: Seq<char>) -> Seq<char> {
    if s.len() > 0 && s[0] == '+' {
        s.drop_first()
    } else {
        s
    }
}

/// A prefix of a run of digits never writes a larger number than the run.
proof fn lemma_digits_prefix(s: Seq<char>, k: int)
    requires
        0 <= k <= s.len(),
        forall|i: int| 0 <= i < s.len() ==> is_digit(#[trigger] s[i]),
    ensures
        digits_value(s.take(k)) <= digits_value(s),
    decreases s.len() - k,
{
    if k < s.len() {
        lemma_digits_prefix(s, k + 1);
        assert(s.take(k + 1).drop_last() =~= s.take(k));
    } else {
        assert(s.take(k) =~= s);
    }
}

/// Parses a decimal `usize` as `str::parse::<usize>` does.
pub fn parse_usize(s: &str) -> (r: Option<usize>)
    ensures
        r matches Some(n) ==> parsed_usize(s@) == Some(n as nat),
        r is None ==> parsed_usize(s@) is None,
{
    let cs = chars_of(s);
    let mut start: usize = 0;
    if cs.len() > 0 && cs[0] == '+' {
        start = 1;
    }
    let ghost body = cs@.subrange(start as int, cs@.len() as int);
    assert(body =~= unsigned_body(s@));
    if start >= cs.len() {
        return None;
    }
    let mut value: usize = 0;
    let mut i: usize = start;
    while i < cs.len()
        invariant
            cs@ == s@,
            start <= i <= cs@.len(),
            body == cs@.subrange(start as int, cs@.len() as int),
            forall|j: int| 0 <= j < i - start ==> is_digit(#[trigger] body[j]),
            value == digits_value(body.take(i - start)),
            body == unsigned_body(s@),
            body.len() > 0,
        decreases cs@.len() - i,
    {
        let c = cs[i];
        let u = c as u32;
        if u < 48 || u > 57 {
            assert(!is_digit(body[i - start]));
            assert(!(forall|j: int| 0 <= j < body.len() ==> is_digit(#[trigger] body[j])));
            assert(parsed_usize(s@) is None);
            return None;
        }
        let d: usize = (u - 48) as usize;
        assert(body.take(i - start + 1).drop_last() =~= body.take(i - start));
        assert(body.take(i - start + 1).last() == c);
        match value.checked_mul(10) {
            Some(v10) => match v10.checked_add(d) {
                Some(v) => {
                    value = v;
                },
                None => {
                    proof {
                        assert(digits_value(body.take(i - start + 1)) == value * 10 + d);
                        if forall|j: int| 0 <= j < body.len() ==> is_digit(#[trigger] body[j]) {
                            lemma_digits_prefix(body, i - start + 1);
                        }
                    }
                    return None;
                },
            },
            None => {
                proof {
                    if forall|j: int| 0 <= j < body.len() ==> is_digit(#[trigger] body[j]) {
                        lemma_digits_prefix(body, i - start + 1);
                    }
                }
                return None;
            },
        }
        i = i + 1;
    }
    assert(body.take(body.len() as int) =~= body);
    Some(value)
}

/// Words joined with single spaces between them.
pub open spec fn joined(ws: Seq<Seq<char>>) -> Seq<char>
    decreases ws.len(),
{
    if ws.len() == 0 {
        seq![]
    } else if ws.len() == 1 {
        ws[0]
    } else {
        joined(ws.drop_last()) + seq![' '] + ws.last()
    }
}

/// The words `ws[from..]` joined with single spaces.
pub fn join_words(ws: &Vec<String>, from: usize) -> (s: String)
    requires
        from <= ws@.len(),
    ensures
        s@ == joined(ws.deep_view().subrange(from as int, ws@.len() as int)),
{
    let mut s = String::new();
    let mut i: usize = from;
    while i < ws.len()
        invariant
            from <= i <= ws@.len(),
            s@ == joined(ws.deep_view().subrange(from as int, i as int)),
        decreases ws@.len() - i,
    {
        let ghost prev = ws.deep_view().subrange(from as int, i as int);
        assert(ws.deep_view().subrange(from as int, i + 1).drop_last() =~= prev);
        if i > from {
            s.push(' ');
        } else {
            assert(prev.len() == 0);
        }
        s.append(ws[i].as_str());
        assert(s@ =~= joined(ws.deep_view().subrange(from as int, i + 1)));
        i = i + 1;
    }
    s
}


/// The number of bytes of `c` in UTF-8.
fn utf8_width(c: char) -> (w: usize)
    ensures
        w == vstd::utf8::encode_scalar(c as u32).len(),
{
    proof {
        vstd::utf8::char_is_scalar(c);
    }
    let u = c as u32;
    if u <= 0x7f {
        1
    } else if u <= 0x7ff {
        2
    } else if u <= 0xffff {
        3
    } else {
        4
    }
}

/// Whether `s` takes fewer than `k` bytes in UTF-8 (that is, whether
/// `s.len() < k`).
pub fn byte_len_below(s: &str, k: usize) -> (r: bool)
    ensures
        r == (vstd::utf8::encode_utf8(s@).len() < k),
{
    let cs = chars_of(s);
    let mut i: usize = cs.len();
    let mut count: usize = 0;
    assert(cs@.skip(cs@.len() as int) =~= Seq::<char>::empty());
    while i > 0
        invariant
            cs@ == s@,
            i <= cs@.len(),
            count <= k,
            count == (if vstd::utf8::encode_utf8(cs@.skip(i as int)).len() < k {
                vstd::utf8::encode_utf8(cs@.skip(i as int)).len()
            } else {
                k as nat
            }),
        decreases i,
    {
        let j = i - 1;
        let w = utf8_width(cs[j]);
        assert(cs@.skip(j as int).drop_first() =~= cs@.skip(i as int));
        assert(cs@.skip(j as int)[0] == cs@[j as int]);
        if w >= k - count {
            count = k;
        } else {
            count = count + w;
        }
        i = j;
    }
    assert(cs@.skip(0) =~= cs@);
    count < k
}


/// The characters `v[lo..hi]`.
pub fn sub_chars(v: &Vec<char>, lo: usize, hi: usize) -> (r: Vec<char>)
    requires
        lo <= hi <= v@.len(),
    ensures
        r@ == v@.subrange(lo as int, hi as int),
{
    let mut r: Vec<char> = Vec::new();
    let mut i: usize = lo;
    while i < hi
        invariant
            lo <= i <= hi <= v@.len(),
            r@ == v@.subrange(lo as int, i as int),
        decreases hi - i,
    {
        r.push(v[i]);
        assert(r@ =~= v@.subrange(lo as int, i + 1));
        i = i + 1;
    }
    r
}

/// The text of `s` before the first `sep`, or all of it: the first piece
/// that `str::split` yields.
pub open spec fn before_first(s: Seq<char>, sep: Seq<char>) -> Seq<char> {
    match first_occurrence(s, sep, 0) {
        Some(i) => s.take(i),
        None => s,
    }
}

/// The text of `s` after the first `sep`, if there is one.
pub open spec fn after_first(s: Seq<char>, sep: Seq<char>) -> Option<Seq<char>> {
    match first_occurrence(s, sep, 0) {
        Some(i) => Some(s.skip(i + sep.len())),
        None => None,
    }
}

/// The piece number `k` (from 0) of `s` split at `sep`, if there are that
/// many: what `s.split(sep).nth(k)` gives.
pub open spec fn nth_piece(s: Seq<char>, sep: Seq<char>, k: nat) -> Option<Seq<char>>
    decreases k,
{
    if k == 0 {
        Some(before_first(s, sep))
    } else {
        match after_first(s, sep) {
            Some(rest) => nth_piece(rest, sep, (k - 1) as nat),
            None => None,
        }
    }
}

/// The piece number `k` of `s` split at `sep`.
pub fn nth_piece_of(s: &Vec<char>, sep: &Vec<char>, k: usize) -> (r: Option<Vec<char>>)
    ensures
        r matches Some(p) ==> nth_piece(s@, sep@, k as nat) == Some(p@),
        r is None ==> nth_piece(s@, sep@, k as nat) is None,
    decreases k,
{
    match find_from(s, sep, 0) {
        Some(i) => {
            proof {
                lemma_first_occurrence(s@, sep@, 0);
            }
            let slen: usize = s.len();
            assert(i + sep@.len() <= slen);
            if k == 0 {
                Some(sub_chars(s, 0, i))
            } else {
                let rest = sub_chars(s, i + sep.len(), s.len());
                assert(rest@ =~= s@.skip(i + sep@.len()));
                nth_piece_of(&rest, sep, k - 1)
            }
        },
        None => {
            if k == 0 {
                Some(sub_chars(s, 0, s.len()))
            } else {
                None
            }
        },
    }
}

/// `a` comes before `b` in the order of `str` (by code points, the first
/// difference deciding, a proper prefix first).
pub open spec fn lex_less(a: Seq<char>, b: Seq<char>) -> bool
    decreases a.len(),
{
    if a.len() == 0 {
        b.len() > 0
    } else if b.len() == 0 {
        false
    } else if a[0] != b[0] {
        (a[0] as u32) < (b[0] as u32)
    } else {
        lex_less(a.drop_first(), b.drop_first())
    }
}

/// Sequences that agree on their first element and on the rest are equal.
proof fn lemma_same_head_tail(a: Seq<char>, b: Seq<char>)
    requires
        a.len() > 0,
        b.len() > 0,
        a[0] == b[0],
        a.drop_first() == b.drop_first(),
    ensures
        a == b,
{
    assert(a.drop_first().len() == a.len() - 1);
    assert(b.drop_first().len() == b.len() - 1);
    assert(a.len() == b.len());
    assert forall|i: int| 0 <= i < a.len() implies a[i] == b[i] by {
        if i > 0 {
            assert(a[i] == a.drop_first()[i - 1]);
            assert(b[i] == b.drop_first()[i - 1]);
        }
    }
    assert(a =~= b);
}

/// `lex_less` is irreflexive.
pub proof fn lemma_lex_irreflexive(a: Seq<char>)
    ensures
        !lex_less(a, a),
    decreases a.len(),
{
    if a.len() > 0 {
        lemma_lex_irreflexive(a.drop_first());
    }
}

/// Of two different sequences, exactly one comes first.
pub proof fn lemma_lex_total(a: Seq<char>, b: Seq<char>)
    ensures
        a != b ==> lex_less(a, b) || lex_less(b, a),
        lex_less(a, b) ==> !lex_less(b, a),
    decreases a.len(),
{
    if a.len() == 0 && b.len() == 0 {
        assert(a =~= b);
    } else if a.len() > 0 && b.len() > 0 {
        lemma_lex_total(a.drop_first(), b.drop_first());
        if a[0] == b[0] && a.drop_first() == b.drop_first() {
            lemma_same_head_tail(a, b);
        }
        if a[0] != b[0] {
            vstd::utf8::char_u32_cast(a[0], a[0] as u32);
            vstd::utf8::char_u32_cast(b[0], b[0] as u32);
        }
    }
}

/// `lex_less` is transitive.
pub proof fn lemma_lex_transitive(a: Seq<char>, b: Seq<char>, c: Seq<char>)
    ensures
        lex_less(a, b) && lex_less(b, c) ==> lex_less(a, c),
    decreases a.len(),
{
    if a.len() > 0 && b.len() > 0 && c.len() > 0 {
        lemma_lex_transitive(a.drop_first(), b.drop_first(), c.drop_first());
    }
}

/// Whether `a` comes before `b` in the order of `str`.
pub fn lex_less_chars(a: &Vec<char>, b: &Vec<char>) -> (r: bool)
    ensures
        r == lex_less(a@, b@),
{
    let mut i: usize = 0;
    assert(a@.skip(0) =~= a@);
    assert(b@.skip(0) =~= b@);
    while i < a.len() && i < b.len()
        invariant
            i <= a@.len(),
            i <= b@.len(),
            lex_less(a@, b@) == lex_less(a@.skip(i as int), b@.skip(i as int)),
        decreases a@.len() - i,
    {
        assert(a@.skip(i as int).drop_first() =~= a@.skip(i + 1));
        assert(b@.skip(i as int).drop_first() =~= b@.skip(i + 1));
        assert(a@.skip(i as int)[0] == a@[i as int]);
        assert(b@.skip(i as int)[0] == b@[i as int]);
        if a[i] != b[i] {
            return (a[i] as u32) < (b[i] as u32);
        }
        i = i + 1;
    }
    i == a.len() && i < b.len()
}

} // verus!
