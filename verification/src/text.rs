//! Character sequences: the small string toolkit the naming rules are written in.
//!
//! Names are handled as `Vec<char>` inside the library, so that every rule on
//! them is a statement about a `Seq<char>`.

use vstd::prelude::*;

verus! {

/// `p` stands in `s` at index `i`.
pub open spec fn occurs_at(s: Seq<char>, p: Seq<char>, i: int) -> bool {
    0 <= i && i + p.len() <= s.len() && s.subrange(i, i + p.len()) == p
}

/// `s` begins with `p`.
pub open spec fn has_prefix(s: Seq<char>, p: Seq<char>) -> bool {
    occurs_at(s, p, 0)
}

/// `s` ends with `p`.
pub open spec fn has_suffix(s: Seq<char>, p: Seq<char>) -> bool {
    occurs_at(s, p, s.len() - p.len())
}

/// `p` stands somewhere in `s`.
pub open spec fn has_infix(s: Seq<char>, p: Seq<char>) -> bool {
    exists|i: int| occurs_at(s, p, i)
}

/// `s` with every occurrence of `p` taken out, scanning from the left; an
/// occurrence that was taken out is not scanned again. An empty `p` takes
/// nothing out.
pub open spec fn without(s: Seq<char>, p: Seq<char>) -> Seq<char>
    decreases s.len(),
{
    if p.len() == 0 || s.len() == 0 {
        s
    } else if occurs_at(s, p, 0) {
        without(s.skip(p.len() as int), p)
    } else {
        seq![s[0]] + without(s.skip(1), p)
    }
}

/// `s` with every `from` turned into `to`.
pub open spec fn with_char_replaced(s: Seq<char>, from: char, to: char) -> Seq<char> {
    Seq::new(s.len(), |i: int| if s[i] == from { to } else { s[i] })
}

/// The character of a decimal digit.
pub open spec fn digit_char(d: int) -> char {
    if d == 0 {
        '0'
    } else if d == 1 {
        '1'
    } else if d == 2 {
        '2'
    } else if d == 3 {
        '3'
    } else if d == 4 {
        '4'
    } else if d == 5 {
        '5'
    } else if d == 6 {
        '6'
    } else if d == 7 {
        '7'
    } else if d == 8 {
        '8'
    } else {
        '9'
    }
}

/// `n` in decimal, without leading zeros.
pub open spec fn decimal(n: nat) -> Seq<char>
    decreases n,
{
    if n < 10 {
        seq![digit_char(n as int)]
    } else {
        decimal(n / 10).push(digit_char((n % 10) as int))
    }
}

/// `String::from_iter` on the characters of `chars`: the string that holds
/// exactly these characters, in this order.
#[verifier::external_body]
pub(crate) fn string_of(chars: &Vec<char>) -> (s: String)
    ensures
        s@ == chars@,
{
    String::from_iter(chars.iter())
}

/// All characters of `s`, in order.
pub fn chars_of(s: &str) -> (out: Vec<char>)
    ensures
        out@ == s@,
{
    let mut out: Vec<char> = Vec::new();
    for c in it: s.chars()
        invariant
            out@ == it.seq().take(it.index() as int),
            it.seq() == s@,
    {
        out.push(c);
    }
    out
}

/// Appends `src` to `dst`.
pub fn append_chars(dst: &mut Vec<char>, src: &Vec<char>)
    ensures
        final(dst)@ == old(dst)@ + src@,
{
    let mut i: usize = 0;
    while i < src.len()
        invariant
            i <= src.len(),
            dst@ == old(dst)@ + src@.take(i as int),
        decreases src.len() - i,
    {
        dst.push(src[i]);
        i += 1;
    }
}

/// Whether `p` stands in `s` at index `i`.
pub fn matches_at(s: &Vec<char>, p: &Vec<char>, i: usize) -> (found: bool)
    ensures
        found == occurs_at(s@, p@, i as int),
{
    if i > s.len() || p.len() > s.len() - i {
        return false;
    }
    let mut k: usize = 0;
    while k < p.len()
        invariant
            k <= p.len(),
            i + p.len() <= s.len(),
            forall|j: int| 0 <= j < k ==> s@[i + j] == p@[j],
        decreases p.len() - k,
    {
        if s[i + k] != p[k] {
            assert(s@.subrange(i as int, i + p.len())[k as int] == s@[i + k]);
            return false;
        }
        k += 1;
    }
    assert(s@.subrange(i as int, i + p.len()) =~= p@);
    true
}

/// Whether `a` and `b` hold the same characters.
pub fn same_chars(a: &Vec<char>, b: &Vec<char>) -> (same: bool)
    ensures
        same == (a@ == b@),
{
    if a.len() != b.len() {
        return false;
    }
    let same = matches_at(a, b, 0);
    assert(a@.subrange(0, a.len() as int) =~= a@);
    same
}

/// Whether `s` begins with `p`.
pub fn starts_with(s: &Vec<char>, p: &Vec<char>) -> (found: bool)
    ensures
        found == has_prefix(s@, p@),
{
    matches_at(s, p, 0)
}

/// Whether `s` ends with `p`.
pub fn ends_with(s: &Vec<char>, p: &Vec<char>) -> (found: bool)
    ensures
        found == has_suffix(s@, p@),
{
    if p.len() > s.len() {
        false
    } else {
        matches_at(s, p, s.len() - p.len())
    }
}

/// Whether `p` stands somewhere in `s`.
pub fn contains(s: &Vec<char>, p: &Vec<char>) -> (found: bool)
    ensures
        found == has_infix(s@, p@),
{
    let mut i: usize = 0;
    loop
        invariant
            i <= s.len(),
            forall|j: int| 0 <= j < i ==> !occurs_at(s@, p@, j),
        decreases s.len() - i,
    {
        if matches_at(s, p, i) {
            return true;
        }
        if i == s.len() {
            return false;
        }
        i += 1;
    }
}

/// `s` with every occurrence of `p` taken out.
pub fn remove_all(s: &Vec<char>, p: &Vec<char>) -> (out: Vec<char>)
    ensures
        out@ == without(s@, p@),
{
    let mut out: Vec<char> = Vec::new();
    let mut i: usize = 0;
    if p.len() == 0 {
        append_chars(&mut out, s);
        return out;
    }
    assert(s@.skip(0) =~= s@);
    assert(out@ + without(s@, p@) =~= without(s@, p@));
    while i < s.len()
        invariant
            i <= s.len(),
            p.len() > 0,
            out@ + without(s@.skip(i as int), p@) == without(s@, p@),
        decreases s.len() - i,
    {
        let ghost rest = s@.skip(i as int);
        if matches_at(s, p, i) {
            assert(rest.subrange(0, p.len() as int) =~= s@.subrange(i as int, i + p.len()));
            assert(rest.skip(p.len() as int) =~= s@.skip(i + p.len()));
            i += p.len();
        } else {
            assert(i + p.len() <= s.len() ==> rest.subrange(0, p.len() as int) =~= s@.subrange(
                i as int,
                i + p.len(),
            ));
            assert(rest.skip(1) =~= s@.skip(i + 1));
            assert(rest[0] == s@[i as int]);
            assert((out@.push(s@[i as int])) + without(s@.skip(i + 1), p@) =~= out@ + (seq![
                s@[i as int],
            ] + without(s@.skip(i + 1), p@)));
            out.push(s[i]);
            i += 1;
        }
    }
    assert(s@.skip(i as int).len() == 0);
    assert(out@ + Seq::<char>::empty() =~= out@);
    out
}

/// `s` with every `from` turned into `to`.
pub fn replace_char(s: &Vec<char>, from: char, to: char) -> (out: Vec<char>)
    ensures
        out@ == with_char_replaced(s@, from, to),
{
    let mut out: Vec<char> = Vec::new();
    let mut i: usize = 0;
    while i < s.len()
        invariant
            i <= s.len(),
            out@.len() == i,
            forall|j: int| 0 <= j < i ==> out@[j] == (if s@[j] == from {
                to
            } else {
                s@[j]
            }),
        decreases s.len() - i,
    {
        let c = s[i];
        out.push(if c == from { to } else { c });
        i += 1;
    }
    assert(out@ =~= with_char_replaced(s@, from, to));
    out
}

/// The character of the decimal digit `d`.
fn digit(d: u64) -> (c: char)
    requires
        d < 10,
    ensures
        c == digit_char(d as int),
{
    if d == 0 {
        '0'
    } else if d == 1 {
        '1'
    } else if d == 2 {
        '2'
    } else if d == 3 {
        '3'
    } else if d == 4 {
        '4'
    } else if d == 5 {
        '5'
    } else if d == 6 {
        '6'
    } else if d == 7 {
        '7'
    } else if d == 8 {
        '8'
    } else {
        '9'
    }
}

/// `n` in decimal, without leading zeros.
pub fn decimal_of(n: u64) -> (out: Vec<char>)
    ensures
        out@ == decimal(n as nat),
    decreases n,
{
    if n < 10 {
        let mut out: Vec<char> = Vec::new();
        out.push(digit(n));
        out
    } else {
        let mut out = decimal_of(n / 10);
        out.push(digit(n % 10));
        out
    }
}

/// Whether `text` is in `list`.
pub fn has_text(list: &Vec<String>, text: &String) -> (found: bool)
    ensures
        found == list.deep_view().contains(text@),
{
    let mut i: usize = 0;
    while i < list.len()
        invariant
            i <= list.len(),
            forall|j: int| 0 <= j < i ==> list.deep_view()[j] != text@,
        decreases list.len() - i,
    {
        if list[i] == *text {
            assert(list.deep_view()[i as int] == text@);
            return true;
        }
        i += 1;
    }
    false
}

/// A copy of `list`.
pub fn copy_texts(list: &Vec<String>) -> (out: Vec<String>)
    ensures
        out.deep_view() == list.deep_view(),
{
    let mut out: Vec<String> = Vec::new();
    let mut i: usize = 0;
    while i < list.len()
        invariant
            i <= list.len(),
            out.len() == i,
            forall|j: int| 0 <= j < i ==> out.deep_view()[j] == list.deep_view()[j],
        decreases list.len() - i,
    {
        let ghost before = out.deep_view();
        out.push(list[i].clone());
        assert(out.deep_view() =~= before.push(list.deep_view()[i as int]));
        i += 1;
    }
    assert(out.deep_view() =~= list.deep_view());
    out
}

/// Taking occurrences out brings no character in.
pub proof fn lemma_without_brings_nothing_in(s: Seq<char>, p: Seq<char>, c: char)
    requires
        !s.contains(c),
    ensures
        !without(s, p).contains(c),
    decreases s.len(),
{
    if p.len() == 0 || s.len() == 0 {
    } else if occurs_at(s, p, 0) {
        let rest = s.skip(p.len() as int);
        assert forall|i: int| 0 <= i < rest.len() implies rest[i] != c by {
            assert(rest[i] == s[i + p.len()]);
            assert(s.contains(s[i + p.len()]));
        }
        lemma_without_brings_nothing_in(rest, p, c);
    } else {
        let rest = s.skip(1);
        assert forall|i: int| 0 <= i < rest.len() implies rest[i] != c by {
            assert(rest[i] == s[i + 1]);
            assert(s.contains(s[i + 1]));
        }
        lemma_without_brings_nothing_in(rest, p, c);
        let out = without(rest, p);
        assert(s.contains(s[0]));
        assert forall|i: int| 0 <= i < (seq![s[0]] + out).len() implies (seq![s[0]] + out)[i]
            != c by {
            if i > 0 {
                assert((seq![s[0]] + out)[i] == out[i - 1]);
                assert(out.contains(out[i - 1]));
            }
        }
    }
}

/// `c` is a decimal digit.
pub open spec fn is_digit(c: char) -> bool {
    c == '0' || c == '1' || c == '2' || c == '3' || c == '4' || c == '5' || c == '6' || c == '7'
        || c == '8' || c == '9'
}

/// A number in decimal is one digit or more, and digits only.
pub proof fn lemma_decimal_is_digits(n: nat)
    ensures
        decimal(n).len() > 0,
        forall|i: int| 0 <= i < decimal(n).len() ==> is_digit(#[trigger] decimal(n)[i]),
    decreases n,
{
    if n >= 10 {
        lemma_decimal_is_digits(n / 10);
    }
}

/// Different numbers are written differently.
pub proof fn lemma_decimal_is_injective(a: nat, b: nat)
    requires
        decimal(a) == decimal(b),
    ensures
        a == b,
    decreases a,
{
    lemma_decimal_is_digits(a / 10);
    lemma_decimal_is_digits(b / 10);
    if a < 10 && b < 10 {
        assert(decimal(a)[0] == digit_char(a as int));
        assert(decimal(b)[0] == digit_char(b as int));
    } else if a >= 10 && b >= 10 {
        let da = decimal(a / 10);
        let db = decimal(b / 10);
        assert(decimal(a) == da.push(digit_char((a % 10) as int)));
        assert(decimal(b) == db.push(digit_char((b % 10) as int)));
        assert(da.push(digit_char((a % 10) as int)).drop_last() =~= da);
        assert(db.push(digit_char((b % 10) as int)).drop_last() =~= db);
        assert(da == db);
        assert(da.push(digit_char((a % 10) as int)).last() == digit_char((a % 10) as int));
        assert(db.push(digit_char((b % 10) as int)).last() == digit_char((b % 10) as int));
        assert(digit_char((a % 10) as int) == digit_char((b % 10) as int));
        lemma_decimal_is_injective(a / 10, b / 10);
        assert(a % 10 == b % 10);
    } else if a < 10 {
        assert(decimal(a).len() == 1);
        assert(decimal(b).len() == decimal(b / 10).len() + 1);
    } else {
        assert(decimal(b).len() == 1);
        assert(decimal(a).len() == decimal(a / 10).len() + 1);
    }
}

/// Digits read up to the first character that is none: where two texts are
/// equal, each digits followed by a rest that begins with no digit, the
/// digits are equal and the rests are.
pub proof fn lemma_digits_end_alike(a: Seq<char>, ra: Seq<char>, b: Seq<char>, rb: Seq<char>)
    requires
        forall|i: int| 0 <= i < a.len() ==> is_digit(#[trigger] a[i]),
        forall|i: int| 0 <= i < b.len() ==> is_digit(#[trigger] b[i]),
        ra.len() > 0 && !is_digit(ra[0]),
        rb.len() > 0 && !is_digit(rb[0]),
        a + ra == b + rb,
    ensures
        a == b,
        ra == rb,
{
    if a.len() < b.len() {
        assert((a + ra)[a.len() as int] == ra[0]);
        assert((b + rb)[a.len() as int] == b[a.len() as int]);
        assert(is_digit(b[a.len() as int]));
    } else if b.len() < a.len() {
        assert((b + rb)[b.len() as int] == rb[0]);
        assert((a + ra)[b.len() as int] == a[b.len() as int]);
        assert(is_digit(a[b.len() as int]));
    } else {
        assert forall|i: int| 0 <= i < a.len() implies a[i] == b[i] by {
            assert((a + ra)[i] == a[i]);
            assert((b + rb)[i] == b[i]);
        }
        assert(a =~= b);
        assert((a + ra).len() == a.len() + ra.len());
        assert((b + rb).len() == b.len() + rb.len());
        assert(ra.len() == rb.len());
        assert forall|i: int| 0 <= i < ra.len() implies ra[i] == rb[i] by {
            assert((a + ra)[a.len() + i] == ra[i]);
            assert((b + rb)[b.len() + i] == rb[i]);
        }
        assert(ra =~= rb);
    }
}

} // verus!
