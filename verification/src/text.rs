//! Texts as sequences of characters: the vocabulary that the path, name and
//! message rules of the agent are stated in, and the functions that compute it.
use vstd::prelude::*;

verus! {

/// `String::push` appends one character to the text.
pub assume_specification[ String::push ](s: &mut String, c: char)
    ensures
        final(s)@ == old(s)@.push(c),
;

/// Whether `pat` occurs in `s` at position `i`.
pub open spec fn occurs_at(s: Seq<char>, pat: Seq<char>, i: int) -> bool {
    0 <= i && i + pat.len() <= s.len() && s.subrange(i, i + pat.len()) == pat
}

/// Whether `pat` occurs anywhere in `s`.
pub open spec fn occurs(s: Seq<char>, pat: Seq<char>) -> bool {
    exists|i: int| #[trigger] occurs_at(s, pat, i)
}

/// `s` without the run of `c` that it starts with.
pub open spec fn trim_front(s: Seq<char>, c: char) -> Seq<char>
    decreases s.len(),
{
    if s.len() > 0 && s[0] == c {
        trim_front(s.drop_first(), c)
    } else {
        s
    }
}

/// `s` without the run of `c` that it ends with.
pub open spec fn trim_back(s: Seq<char>, c: char) -> Seq<char>
    decreases s.len(),
{
    if s.len() > 0 && s.last() == c {
        trim_back(s.drop_last(), c)
    } else {
        s
    }
}

/// The position of the last `c` in `s`, or -1.
pub open spec fn last_pos(s: Seq<char>, c: char) -> int
    decreases s.len(),
{
    if s.len() == 0 {
        -1
    } else if s.last() == c {
        s.len() - 1
    } else {
        last_pos(s.drop_last(), c)
    }
}

/// The position of the first `c` in `s`, or the length of `s`.
pub open spec fn first_pos(s: Seq<char>, c: char) -> int
    decreases s.len(),
{
    if s.len() == 0 || s[0] == c {
        0
    } else {
        1 + first_pos(s.drop_first(), c)
    }
}

/// What follows the last `c` in `s`: all of `s` where there is none.
pub open spec fn after_last(s: Seq<char>, c: char) -> Seq<char> {
    s.skip(last_pos(s, c) + 1)
}

/// What precedes the first `c` in `s`: all of `s` where there is none.
pub open spec fn before_first(s: Seq<char>, c: char) -> Seq<char> {
    s.take(first_pos(s, c))
}

/// `s` with every `from` replaced by `to`.
pub open spec fn replaced(s: Seq<char>, from: char, to: char) -> Seq<char> {
    s.map_values(|x: char| if x == from { to } else { x })
}

/// The lower-case form of an ASCII letter; every other character is kept.
pub open spec fn ascii_lower(c: char) -> char {
    if 'A' <= c && c <= 'Z' {
        ((c as u32) + 32) as char
    } else {
        c
    }
}

/// Equality of two texts up to the case of ASCII letters.
pub open spec fn same_ignoring_case(a: Seq<char>, b: Seq<char>) -> bool {
    a.len() == b.len() && forall|i: int|
        0 <= i < a.len() ==> ascii_lower(#[trigger] a[i]) == ascii_lower(b[i])
}

/// The decimal digits of `n`, without leading zeros.
pub open spec fn decimal(n: nat) -> Seq<char>
    decreases n,
{
    if n < 10 {
        seq![digit_char(n as int)]
    } else {
        decimal(n / 10).push(digit_char((n % 10) as int))
    }
}

/// The digit for a value from 0 to 9.
pub open spec fn digit_char(d: int) -> char {
    (48 + d) as char
}

/// `s` with `0` put in front until it has at least `width` characters.
pub open spec fn zero_padded(s: Seq<char>, width: nat) -> Seq<char> {
    if s.len() >= width {
        s
    } else {
        Seq::new((width - s.len()) as nat, |i: int| '0') + s
    }
}

/// Strict order of texts by their code points, which is how text sorts.
pub open spec fn precedes(a: Seq<char>, b: Seq<char>) -> bool
    decreases a.len(),
{
    if b.len() == 0 {
        false
    } else if a.len() == 0 {
        true
    } else if a[0] != b[0] {
        a[0] < b[0]
    } else {
        precedes(a.drop_first(), b.drop_first())
    }
}

/// The pieces of `s` between the occurrences of `c`.
pub open spec fn pieces(s: Seq<char>, c: char) -> Seq<Seq<char>>
    decreases s.len(),
{
    let p = first_pos(s, c);
    if 0 <= p < s.len() {
        seq![s.take(p)] + pieces(s.skip(p + 1), c)
    } else {
        seq![s]
    }
}

/// The texts that the elements of a vector hold.
pub open spec fn texts(v: Seq<String>) -> Seq<Seq<char>> {
    v.map_values(|s: String| s@)
}

pub proof fn lemma_first_pos(s: Seq<char>, c: char)
    ensures
        0 <= first_pos(s, c) <= s.len(),
        first_pos(s, c) < s.len() ==> s[first_pos(s, c)] == c,
        forall|i: int| 0 <= i < first_pos(s, c) ==> s[i] != c,
    decreases s.len(),
{
    if s.len() > 0 && s[0] != c {
        lemma_first_pos(s.drop_first(), c);
        assert forall|i: int| 0 <= i < first_pos(s, c) implies s[i] != c by {
            if i > 0 {
                assert(s.drop_first()[i - 1] != c);
            }
        }
    }
}

pub proof fn lemma_first_pos_is(s: Seq<char>, c: char, p: int)
    requires
        0 <= p <= s.len(),
        p < s.len() ==> s[p] == c,
        forall|i: int| 0 <= i < p ==> s[i] != c,
    ensures
        first_pos(s, c) == p,
{
    lemma_first_pos(s, c);
    let q = first_pos(s, c);
    if q < p {
        assert(s[q] != c);
    }
    if p < q {
        assert(s[p] != c);
    }
}

pub proof fn lemma_last_pos(s: Seq<char>, c: char)
    ensures
        -1 <= last_pos(s, c) < s.len(),
        last_pos(s, c) >= 0 ==> s[last_pos(s, c)] == c,
        forall|i: int| last_pos(s, c) < i < s.len() ==> s[i] != c,
    decreases s.len(),
{
    if s.len() > 0 && s.last() != c {
        lemma_last_pos(s.drop_last(), c);
        assert forall|i: int| last_pos(s, c) < i < s.len() implies s[i] != c by {
            if i < s.len() - 1 {
                assert(s.drop_last()[i] != c);
            }
        }
    }
}

pub proof fn lemma_last_pos_is(s: Seq<char>, c: char, p: int)
    requires
        -1 <= p < s.len(),
        p >= 0 ==> s[p] == c,
        forall|i: int| p < i < s.len() ==> s[i] != c,
    ensures
        last_pos(s, c) == p,
{
    lemma_last_pos(s, c);
    let q = last_pos(s, c);
    if q > p {
        assert(s[q] != c);
    }
    if p > q {
        assert(s[p] != c);
    }
}

/// Trimming the front drops a run of `c`: what is left does not start with it.
pub proof fn lemma_trim_front(s: Seq<char>, c: char, k: int)
    requires
        0 <= k <= s.len(),
        forall|i: int| 0 <= i < k ==> s[i] == c,
        k < s.len() ==> s[k] != c,
    ensures
        trim_front(s, c) == s.skip(k),
    decreases k,
{
    if k == 0 {
        assert(s.skip(0) =~= s);
    } else {
        assert(s[0] == c);
        let t = s.drop_first();
        assert forall|i: int| 0 <= i < k - 1 implies t[i] == c by {
            assert(t[i] == s[i + 1]);
        }
        lemma_trim_front(t, c, k - 1);
        assert(t.skip(k - 1) =~= s.skip(k));
    }
}

/// Trimming the back drops a run of `c`: what is left does not end with it.
pub proof fn lemma_trim_back(s: Seq<char>, c: char, k: int)
    requires
        0 <= k <= s.len(),
        forall|i: int| k <= i < s.len() ==> s[i] == c,
        k > 0 ==> s[k - 1] != c,
    ensures
        trim_back(s, c) == s.take(k),
    decreases s.len() - k,
{
    if k == s.len() {
        assert(s.take(k) =~= s);
    } else {
        assert(s.last() == c);
        let t = s.drop_last();
        lemma_trim_back(t, c, k);
        assert(t.take(k) =~= s.take(k));
    }
}

/// The characters of a text, in order.
pub fn chars_of(s: &str) -> (out: Vec<char>)
    ensures
        out@ == s@,
{
    let mut out: Vec<char> = Vec::new();
    for c in it: s.chars()
        invariant
            it.seq() == s@,
            out@ == s@.take(it.index() as int),
    {
        out.push(c);
    }
    assert(s@.take(s@.len() as int) =~= s@);
    out
}

/// The text made of the characters from `from` up to `to`.
pub fn string_range(v: &Vec<char>, from: usize, to: usize) -> (out: String)
    requires
        from <= to <= v@.len(),
    ensures
        out@ == v@.subrange(from as int, to as int),
{
    let mut out = String::new();
    let mut i: usize = from;
    while i < to
        invariant
            from <= i <= to <= v@.len(),
            out@ == v@.subrange(from as int, i as int),
        decreases to - i,
    {
        out.push(v[i]);
        i += 1;
        assert(v@.subrange(from as int, i as int) =~= v@.subrange(from as int, i - 1).push(
            v@[i - 1],
        ));
    }
    out
}

/// Two texts, one after the other.
pub fn join2(a: &str, b: &str) -> (out: String)
    ensures
        out@ == a@ + b@,
{
    let mut out = a.to_owned();
    out.append(b);
    out
}

/// Three texts, one after the other.
pub fn join3(a: &str, b: &str, c: &str) -> (out: String)
    ensures
        out@ == a@ + b@ + c@,
{
    let mut out = a.to_owned();
    out.append(b);
    out.append(c);
    out
}

/// Whether two texts hold the same characters.
pub fn same(a: &str, b: &str) -> (r: bool)
    ensures
        r == (a@ == b@),
{
    a.to_owned() == b.to_owned()
}

fn matches_at(v: &Vec<char>, p: &Vec<char>, i: usize) -> (r: bool)
    ensures
        r == occurs_at(v@, p@, i as int),
{
    if p.len() > v.len() || i > v.len() - p.len() {
        return false;
    }
    let mut j: usize = 0;
    while j < p.len()
        invariant
            i + p@.len() <= v.len(),
            j <= p@.len(),
            forall|k: int| 0 <= k < j ==> v@[i + k] == p@[k],
        decreases p@.len() - j,
    {
        if v[i + j] != p[j] {
            assert(v@.subrange(i as int, i + p@.len())[j as int] != p@[j as int]);
            return false;
        }
        j += 1;
    }
    assert(v@.subrange(i as int, i + p@.len()) =~= p@);
    true
}

/// Whether `pat` occurs in `s`.
pub fn contains(s: &str, pat: &str) -> (r: bool)
    ensures
        r == occurs(s@, pat@),
{
    let v = chars_of(s);
    let p = chars_of(pat);
    if p.len() > v.len() {
        return false;
    }
    let last: usize = v.len() - p.len();
    let mut i: usize = 0;
    while i <= last
        invariant
            v@ == s@,
            p@ == pat@,
            last == v@.len() - p@.len(),
            i <= last + 1,
            forall|k: int| 0 <= k < i ==> !occurs_at(s@, pat@, k),
        decreases last + 1 - i,
    {
        if matches_at(&v, &p, i) {
            return true;
        }
        if i == last {
            assert(forall|k: int| occurs_at(s@, pat@, k) ==> k <= last);
            return false;
        }
        i += 1;
    }
    false
}

/// Whether `s` starts with `pat`.
pub fn starts_with(s: &str, pat: &str) -> (r: bool)
    ensures
        r == pat@.is_prefix_of(s@),
{
    let v = chars_of(s);
    let p = chars_of(pat);
    matches_at(&v, &p, 0)
}

/// Whether `s` ends with `pat`.
pub fn ends_with(s: &str, pat: &str) -> (r: bool)
    ensures
        r == pat@.is_suffix_of(s@),
{
    let v = chars_of(s);
    let p = chars_of(pat);
    if p.len() > v.len() {
        return false;
    }
    matches_at(&v, &p, v.len() - p.len())
}

/// Whether `s` starts with the character `c`.
pub fn starts_with_char(s: &str, c: char) -> (r: bool)
    ensures
        r == (s@.len() > 0 && s@[0] == c),
{
    let v = chars_of(s);
    v.len() > 0 && v[0] == c
}

/// `s` without the run of `c` that it starts with.
pub fn trim_start_char(s: &str, c: char) -> (out: String)
    ensures
        out@ == trim_front(s@, c),
{
    let v = chars_of(s);
    let mut k: usize = 0;
    while k < v.len() && v[k] == c
        invariant
            k <= v@.len(),
            forall|i: int| 0 <= i < k ==> v@[i] == c,
        decreases v@.len() - k,
    {
        k += 1;
    }
    proof {
        lemma_trim_front(v@, c, k as int);
    }
    string_range(&v, k, v.len())
}

/// `s` without the run of `c` that it ends with.
pub fn trim_end_char(s: &str, c: char) -> (out: String)
    ensures
        out@ == trim_back(s@, c),
{
    let v = chars_of(s);
    let mut k: usize = v.len();
    while k > 0 && v[k - 1] == c
        invariant
            k <= v@.len(),
            forall|i: int| k <= i < v@.len() ==> v@[i] == c,
        decreases k,
    {
        k -= 1;
    }
    proof {
        lemma_trim_back(v@, c, k as int);
        assert(v@.subrange(0, k as int) =~= v@.take(k as int));
    }
    string_range(&v, 0, k)
}

/// The position just behind the last `c`, or 0 where there is none.
pub fn after_last_index(v: &Vec<char>, c: char) -> (k: usize)
    ensures
        k == last_pos(v@, c) + 1,
        k <= v@.len(),
{
    let mut k: usize = v.len();
    while k > 0 && v[k - 1] != c
        invariant
            k <= v@.len(),
            forall|i: int| k <= i < v@.len() ==> v@[i] != c,
        decreases k,
    {
        k -= 1;
    }
    proof {
        lemma_last_pos_is(v@, c, k - 1);
    }
    k
}

/// The position of the first `c`, or the length where there is none.
pub fn first_index(v: &Vec<char>, c: char) -> (k: usize)
    ensures
        k == first_pos(v@, c),
        k <= v@.len(),
{
    let mut k: usize = 0;
    while k < v.len() && v[k] != c
        invariant
            k <= v@.len(),
            forall|i: int| 0 <= i < k ==> v@[i] != c,
        decreases v@.len() - k,
    {
        k += 1;
    }
    proof {
        lemma_first_pos_is(v@, c, k as int);
    }
    k
}

/// What follows the last `c` in `s`.
pub fn rest_after_last(s: &str, c: char) -> (out: String)
    ensures
        out@ == after_last(s@, c),
{
    let v = chars_of(s);
    let k: usize = after_last_index(&v, c);
    assert(v@.subrange(k as int, v@.len() as int) =~= v@.skip(k as int));
    string_range(&v, k, v.len())
}

/// What precedes the first `c` in `s`.
pub fn head_before_first(s: &str, c: char) -> (out: String)
    ensures
        out@ == before_first(s@, c),
{
    let v = chars_of(s);
    let k: usize = first_index(&v, c);
    assert(v@.subrange(0, k as int) =~= v@.take(k as int));
    string_range(&v, 0, k)
}

/// `s` with every `from` replaced by `to`.
pub fn replace_char(s: &str, from: char, to: char) -> (out: String)
    ensures
        out@ == replaced(s@, from, to),
{
    let v = chars_of(s);
    let mut out = String::new();
    let mut i: usize = 0;
    while i < v.len()
        invariant
            i <= v@.len(),
            v@ == s@,
            out@ == replaced(s@.take(i as int), from, to),
        decreases v@.len() - i,
    {
        let c: char = if v[i] == from {
            to
        } else {
            v[i]
        };
        out.push(c);
        i += 1;
        assert(replaced(s@.take(i as int), from, to) =~= replaced(s@.take(i - 1), from, to).push(
            c,
        ));
    }
    assert(s@.take(s@.len() as int) =~= s@);
    out
}

fn lower(c: char) -> (r: char)
    ensures
        r == ascii_lower(c),
{
    if 'A' <= c && c <= 'Z' {
        let code: u8 = c as u8;
        (code + 32) as char
    } else {
        c
    }
}

/// Whether two texts agree up to the case of ASCII letters.
pub fn eq_ignore_ascii_case(a: &str, b: &str) -> (r: bool)
    ensures
        r == same_ignoring_case(a@, b@),
{
    let v = chars_of(a);
    let w = chars_of(b);
    if v.len() != w.len() {
        return false;
    }
    let mut i: usize = 0;
    while i < v.len()
        invariant
            i <= v@.len(),
            v@ == a@,
            w@ == b@,
            v@.len() == w@.len(),
            forall|j: int| 0 <= j < i ==> ascii_lower(#[trigger] v@[j]) == ascii_lower(w@[j]),
        decreases v@.len() - i,
    {
        if lower(v[i]) != lower(w[i]) {
            assert(ascii_lower(a@[i as int]) != ascii_lower(b@[i as int]));
            return false;
        }
        i += 1;
    }
    true
}

fn digit(d: u8) -> (c: char)
    requires
        d < 10,
    ensures
        c == digit_char(d as int),
{
    (48u8 + d) as char
}

/// Decimal digits are digits.
pub proof fn lemma_decimal_digits(n: nat)
    ensures
        forall|i: int| 0 <= i < decimal(n).len() ==> '0' <= #[trigger] decimal(n)[i] <= '9',
    decreases n,
{
    if n >= 10 {
        lemma_decimal_digits(n / 10);
        assert(decimal(n) == decimal(n / 10).push(digit_char((n % 10) as int)));
        assert forall|i: int| 0 <= i < decimal(n).len() implies '0' <= #[trigger] decimal(n)[i]
            <= '9' by {
            if i < decimal(n / 10).len() {
                assert(decimal(n)[i] == decimal(n / 10)[i]);
            }
        }
    }
}

/// The decimal digits of `n`.
pub fn decimal_of(n: u64) -> (out: String)
    ensures
        out@ == decimal(n as nat),
    decreases n,
{
    if n < 10 {
        let mut out = String::new();
        out.push(digit(n as u8));
        assert(out@ =~= decimal(n as nat));
        out
    } else {
        let mut out = decimal_of(n / 10);
        out.push(digit((n % 10) as u8));
        out
    }
}

/// The digit for a value from 0 to 15.
pub open spec fn hex_char(d: int) -> char {
    if d < 10 {
        (48 + d) as char
    } else {
        (87 + d) as char
    }
}

/// The hexadecimal digits of `n`, in small letters.
pub open spec fn hexadecimal(n: nat) -> Seq<char>
    decreases n,
{
    if n < 16 {
        seq![hex_char(n as int)]
    } else {
        hexadecimal(n / 16).push(hex_char((n % 16) as int))
    }
}

fn hex_digit(d: u8) -> (c: char)
    requires
        d < 16,
    ensures
        c == hex_char(d as int),
{
    if d < 10 {
        (48u8 + d) as char
    } else {
        (87u8 + d) as char
    }
}

/// The hexadecimal digits of `n`, in small letters.
pub fn hexadecimal_of(n: u64) -> (out: String)
    ensures
        out@ == hexadecimal(n as nat),
    decreases n,
{
    if n < 16 {
        let mut out = String::new();
        out.push(hex_digit(n as u8));
        assert(out@ =~= hexadecimal(n as nat));
        out
    } else {
        let mut out = hexadecimal_of(n / 16);
        out.push(hex_digit((n % 16) as u8));
        out
    }
}

/// The decimal digits of `n`, padded with zeros on the left to `width`.
pub fn padded_decimal(n: u64, width: usize) -> (out: String)
    ensures
        out@ == zero_padded(decimal(n as nat), width as nat),
{
    let digits = decimal_of(n);
    let have: usize = digits.as_str().unicode_len();
    let mut out = String::new();
    if have < width {
        let mut i: usize = have;
        while i < width
            invariant
                have <= i <= width,
                out@ == Seq::new((i - have) as nat, |k: int| '0'),
            decreases width - i,
        {
            out.push('0');
            i += 1;
            assert(out@ =~= Seq::new((i - have) as nat, |k: int| '0'));
        }
    }
    out.append(digits.as_str());
    assert(out@ =~= zero_padded(decimal(n as nat), width as nat));
    out
}

pub proof fn lemma_precedes_asymmetric(a: Seq<char>, b: Seq<char>)
    requires
        precedes(a, b),
    ensures
        !precedes(b, a),
    decreases a.len(),
{
    if a.len() > 0 && b.len() > 0 && a[0] == b[0] {
        lemma_precedes_asymmetric(a.drop_first(), b.drop_first());
    }
}

/// What sorts before a name also sorts before what does not sort before that name.
pub proof fn lemma_precedes_less(a: Seq<char>, b: Seq<char>, c: Seq<char>)
    requires
        precedes(a, b),
        !precedes(c, b),
    ensures
        precedes(a, c),
    decreases a.len(),
{
    if a.len() > 0 && b.len() > 0 && c.len() > 0 && a[0] == b[0] && b[0] == c[0] {
        lemma_precedes_less(a.drop_first(), b.drop_first(), c.drop_first());
    }
}

/// Of two different texts one sorts before the other.
pub proof fn lemma_precedes_total(a: Seq<char>, b: Seq<char>)
    requires
        a != b,
    ensures
        precedes(a, b) || precedes(b, a),
    decreases a.len(),
{
    if a.len() == 0 && b.len() == 0 {
        assert(a =~= b);
    } else if a.len() > 0 && b.len() > 0 && a[0] == b[0] {
        if a.drop_first() == b.drop_first() {
            assert(a =~= seq![a[0]] + a.drop_first());
            assert(b =~= seq![b[0]] + b.drop_first());
        }
        lemma_precedes_total(a.drop_first(), b.drop_first());
    }
}

/// The order of texts is transitive.
pub proof fn lemma_precedes_transitive(a: Seq<char>, b: Seq<char>, c: Seq<char>)
    requires
        precedes(a, b),
        precedes(b, c),
    ensures
        precedes(a, c),
{
    lemma_precedes_asymmetric(b, c);
    lemma_precedes_less(a, b, c);
}

/// Whether `a` sorts strictly before `b`.
pub fn text_less(a: &str, b: &str) -> (r: bool)
    ensures
        r == precedes(a@, b@),
{
    let v = chars_of(a);
    let w = chars_of(b);
    let mut i: usize = 0;
    assert(a@.skip(0) =~= a@);
    assert(b@.skip(0) =~= b@);
    while i < v.len() && i < w.len() && v[i] == w[i]
        invariant
            i <= v@.len(),
            i <= w@.len(),
            v@ == a@,
            w@ == b@,
            precedes(a@, b@) == precedes(a@.skip(i as int), b@.skip(i as int)),
        decreases v@.len() - i,
    {
        assert(a@.skip(i as int).drop_first() =~= a@.skip(i + 1));
        assert(b@.skip(i as int).drop_first() =~= b@.skip(i + 1));
        i += 1;
    }
    if i >= w.len() {
        false
    } else if i >= v.len() {
        true
    } else {
        v[i] < w[i]
    }
}

/// The pieces of `s` between the occurrences of `c`.
pub fn split_char(s: &str, c: char) -> (out: Vec<String>)
    ensures
        texts(out@) == pieces(s@, c),
{
    let v = chars_of(s);
    let mut out: Vec<String> = Vec::new();
    let mut start: usize = 0;
    let mut i: usize = 0;
    assert(s@.skip(0) =~= s@);
    assert(texts(out@) + pieces(s@.skip(0), c) =~= pieces(s@, c));
    while i < v.len()
        invariant
            start <= i <= v@.len(),
            v@ == s@,
            forall|k: int| start <= k < i ==> v@[k] != c,
            texts(out@) + pieces(s@.skip(start as int), c) == pieces(s@, c),
        decreases v@.len() - i,
    {
        if v[i] == c {
            let piece = string_range(&v, start, i);
            let ghost tail = s@.skip(start as int);
            let ghost before = texts(out@);
            proof {
                lemma_first_pos_is(tail, c, i - start);
                assert(tail.take(i - start) =~= piece@);
                assert(tail.skip(i - start + 1) =~= s@.skip(i + 1));
            }
            out.push(piece);
            assert(texts(out@) =~= before.push(piece@));
            assert(before + (seq![piece@] + pieces(s@.skip(i + 1), c)) =~= before.push(piece@)
                + pieces(s@.skip(i + 1), c));
            start = i + 1;
        }
        i += 1;
    }
    let piece = string_range(&v, start, v.len());
    let ghost tail = s@.skip(start as int);
    let ghost before = texts(out@);
    proof {
        lemma_first_pos_is(tail, c, tail.len() as int);
        assert(piece@ =~= tail);
    }
    out.push(piece);
    assert(texts(out@) =~= before + seq![piece@]);
    out
}

/// Whether `list` holds the text `s`.
pub fn list_has(list: &Vec<String>, s: &str) -> (r: bool)
    ensures
        r == texts(list@).contains(s@),
{
    let mut i: usize = 0;
    while i < list.len()
        invariant
            i <= list@.len(),
            forall|k: int| 0 <= k < i ==> #[trigger] texts(list@)[k] != s@,
        decreases list@.len() - i,
    {
        if same(list[i].as_str(), s) {
            assert(texts(list@)[i as int] == s@);
            return true;
        }
        i += 1;
    }
    false
}

/// White space as Unicode defines it.
pub open spec fn is_white(c: char) -> bool {
    let n = c as u32;
    ||| 9 <= n <= 13
    ||| n == 0x20
    ||| n == 0x85
    ||| n == 0xA0
    ||| n == 0x1680
    ||| 0x2000 <= n <= 0x200A
    ||| n == 0x2028
    ||| n == 0x2029
    ||| n == 0x202F
    ||| n == 0x205F
    ||| n == 0x3000
}

/// Whether a character is white space.
pub fn white(c: char) -> (r: bool)
    ensures
        r == is_white(c),
{
    let n: u32 = c as u32;
    (9 <= n && n <= 13) || n == 0x20 || n == 0x85 || n == 0xA0 || n == 0x1680 || (0x2000 <= n && n
        <= 0x200A) || n == 0x2028 || n == 0x2029 || n == 0x202F || n == 0x205F || n == 0x3000
}

/// `s` without the white space at its start.
pub open spec fn trim_white_front(s: Seq<char>) -> Seq<char>
    decreases s.len(),
{
    if s.len() > 0 && is_white(s[0]) {
        trim_white_front(s.drop_first())
    } else {
        s
    }
}

/// `s` without the white space at its end.
pub open spec fn trim_white_back(s: Seq<char>) -> Seq<char>
    decreases s.len(),
{
    if s.len() > 0 && is_white(s.last()) {
        trim_white_back(s.drop_last())
    } else {
        s
    }
}

/// `s` without the white space at both ends.
pub open spec fn trimmed(s: Seq<char>) -> Seq<char> {
    trim_white_back(trim_white_front(s))
}

proof fn lemma_trim_white_front(s: Seq<char>, k: int)
    requires
        0 <= k <= s.len(),
        forall|i: int| 0 <= i < k ==> is_white(#[trigger] s[i]),
        k < s.len() ==> !is_white(s[k]),
    ensures
        trim_white_front(s) == s.skip(k),
    decreases k,
{
    if k == 0 {
        assert(s.skip(0) =~= s);
    } else {
        let t = s.drop_first();
        assert forall|i: int| 0 <= i < k - 1 implies is_white(#[trigger] t[i]) by {
            assert(t[i] == s[i + 1]);
        }
        assert(is_white(s[0]));
        lemma_trim_white_front(t, k - 1);
        assert(t.skip(k - 1) =~= s.skip(k));
    }
}

proof fn lemma_trim_white_back(s: Seq<char>, k: int)
    requires
        0 <= k <= s.len(),
        forall|i: int| k <= i < s.len() ==> is_white(#[trigger] s[i]),
        k > 0 ==> !is_white(s[k - 1]),
    ensures
        trim_white_back(s) == s.take(k),
    decreases s.len() - k,
{
    if k == s.len() {
        assert(s.take(k) =~= s);
    } else {
        let t = s.drop_last();
        assert forall|i: int| k <= i < t.len() implies is_white(#[trigger] t[i]) by {
            assert(t[i] == s[i]);
        }
        assert(is_white(s[s.len() - 1]));
        lemma_trim_white_back(t, k);
        assert(t.take(k) =~= s.take(k));
    }
}

/// `s` without the white space at both ends.
pub fn trim(s: &str) -> (out: String)
    ensures
        out@ == trimmed(s@),
{
    let v = chars_of(s);
    let mut a: usize = 0;
    while a < v.len() && white(v[a])
        invariant
            a <= v@.len(),
            forall|i: int| 0 <= i < a ==> is_white(#[trigger] v@[i]),
        decreases v@.len() - a,
    {
        a += 1;
    }
    let mut b: usize = v.len();
    while b > a && white(v[b - 1])
        invariant
            a <= b <= v@.len(),
            forall|i: int| b <= i < v@.len() ==> is_white(#[trigger] v@[i]),
        decreases b,
    {
        b -= 1;
    }
    proof {
        lemma_trim_white_front(v@, a as int);
        let t = v@.skip(a as int);
        assert forall|i: int| b - a <= i < t.len() implies is_white(#[trigger] t[i]) by {
            assert(t[i] == v@[i + a]);
        }
        lemma_trim_white_back(t, b - a);
        assert(t.take(b - a) =~= v@.subrange(a as int, b as int));
    }
    string_range(&v, a, b)
}

/// The words of `s`: its longest runs without white space, in order.
pub open spec fn words(s: Seq<char>) -> Seq<Seq<char>>
    decreases s.len(),
{
    if s.len() == 0 {
        Seq::empty()
    } else if is_white(s.last()) {
        words(s.drop_last())
    } else if s.len() == 1 || is_white(s[s.len() - 2]) {
        words(s.drop_last()).push(seq![s.last()])
    } else {
        let rest = words(s.drop_last());
        rest.drop_last().push(rest.last().push(s.last()))
    }
}

proof fn lemma_words_nonempty(s: Seq<char>)
    requires
        s.len() > 0,
        !is_white(s.last()),
    ensures
        words(s).len() > 0,
    decreases s.len(),
{
}

/// The words of `s`.
pub fn split_words(s: &str) -> (out: Vec<String>)
    ensures
        texts(out@) == words(s@),
{
    let v = chars_of(s);
    let mut out: Vec<String> = Vec::new();
    let mut i: usize = 0;
    assert(s@.take(0) =~= Seq::<char>::empty());
    assert(texts(out@) =~= words(s@.take(0)));
    while i < v.len()
        invariant
            i <= v@.len(),
            v@ == s@,
            texts(out@) == words(s@.take(i as int)),
        decreases v@.len() - i,
    {
        let ghost sofar = s@.take(i as int);
        let ghost next = s@.take(i + 1);
        let ghost before = texts(out@);
        assert(next.drop_last() =~= sofar);
        if !white(v[i]) {
            if i == 0 || white(v[i - 1]) {
                let mut w = String::new();
                w.push(v[i]);
                assert(w@ =~= seq![next.last()]);
                out.push(w);
                assert(texts(out@) =~= before.push(w@));
            } else {
                proof {
                    assert(sofar.last() == s@[i - 1]);
                    lemma_words_nonempty(sofar);
                }
                if let Some(w0) = out.pop() {
                    let mut w = w0;
                    assert(w@ == before.last());
                    assert(texts(out@) =~= before.drop_last());
                    w.push(v[i]);
                    out.push(w);
                    assert(texts(out@) =~= before.drop_last().push(before.last().push(
                        next.last(),
                    )));
                }
            }
        }
        i += 1;
    }
    assert(s@.take(s@.len() as int) =~= s@);
    out
}

/// The piece of a text without one carriage return at its end.
pub open spec fn without_return(s: Seq<char>) -> Seq<char> {
    if s.len() > 0 && s.last() == '\r' {
        s.drop_last()
    } else {
        s
    }
}

/// The lines of a text: a line ends with a line feed, and a carriage return before that is
/// part of the end.
pub open spec fn line_seq(ps: Seq<Seq<char>>, n: nat) -> Seq<Seq<char>>
    decreases n,
{
    if n == 0 {
        Seq::empty()
    } else {
        let i = n - 1;
        let rest = line_seq(ps, (n - 1) as nat);
        if i < ps.len() - 1 {
            rest.push(without_return(ps[i]))
        } else if ps[i].len() > 0 {
            rest.push(ps[i])
        } else {
            rest
        }
    }
}

pub open spec fn lines_of(s: Seq<char>) -> Seq<Seq<char>> {
    let ps = pieces(s, '\n');
    line_seq(ps, ps.len())
}

/// The lines of a text.
pub fn lines(s: &str) -> (out: Vec<String>)
    ensures
        texts(out@) == lines_of(s@),
{
    let ps = split_char(s, '\n');
    let ghost all = texts(ps@);
    let mut out: Vec<String> = Vec::new();
    let mut i: usize = 0;
    assert(texts(out@) =~= line_seq(all, 0));
    while i < ps.len()
        invariant
            i <= ps@.len(),
            all == texts(ps@),
            texts(out@) == line_seq(all, i as nat),
        decreases ps@.len() - i,
    {
        let ghost before = texts(out@);
        assert(all[i as int] == ps@[i as int]@);
        if i < ps.len() - 1 {
            let v = chars_of(ps[i].as_str());
            let line = if v.len() > 0 && v[v.len() - 1] == '\r' {
                assert(v@.subrange(0, v@.len() - 1) =~= v@.drop_last());
                string_range(&v, 0, v.len() - 1)
            } else {
                ps[i].clone()
            };
            out.push(line);
            assert(texts(out@) =~= before.push(line@));
        } else if !ps[i].as_str().is_empty() {
            out.push(ps[i].clone());
            assert(texts(out@) =~= before.push(all[i as int]));
        }
        i += 1;
    }
    out
}

/// The value of decimal digits, or nothing where another character occurs.
pub open spec fn digits_value(s: Seq<char>) -> Option<int>
    decreases s.len(),
{
    if s.len() == 0 {
        Some(0)
    } else {
        match digits_value(s.drop_last()) {
            Some(v) => if '0' <= s.last() && s.last() <= '9' {
                Some(v * 10 + (s.last() as int - 48))
            } else {
                None
            },
            None => None,
        }
    }
}

/// The number that a text states: digits, at least one, with a plus sign before them or not.
pub open spec fn number_in(s: Seq<char>, max: int) -> Option<int> {
    let ds = if s.len() > 0 && s[0] == '+' {
        s.drop_first()
    } else {
        s
    };
    match digits_value(ds) {
        Some(v) => if ds.len() > 0 && v <= max {
            Some(v)
        } else {
            None
        },
        None => None,
    }
}

/// Digits only make a number larger.
proof fn lemma_digits_prefix(s: Seq<char>, k: int)
    requires
        0 <= k <= s.len(),
        digits_value(s) is Some,
    ensures
        digits_value(s.take(k)) is Some,
        0 <= digits_value(s.take(k))->0 <= digits_value(s)->0,
    decreases s.len(),
{
    if s.len() == 0 {
        assert(s.take(k) =~= s);
    } else if k == s.len() {
        assert(s.take(k) =~= s);
        lemma_digits_prefix(s.drop_last(), s.len() - 1);
        assert(s.drop_last().take(s.len() - 1) =~= s.drop_last());
    } else {
        lemma_digits_prefix(s.drop_last(), k);
        assert(s.drop_last().take(k) =~= s.take(k));
        lemma_digits_prefix(s.drop_last(), s.len() - 1);
        assert(s.drop_last().take(s.len() - 1) =~= s.drop_last());
    }
}

/// The unsigned number that a text states, where it fits into 32 bits.
pub fn parse_u32(s: &str) -> (r: Option<u32>)
    ensures
        r is Some <==> number_in(s@, u32::MAX as int) is Some,
        r matches Some(n) ==> number_in(s@, u32::MAX as int) == Some(n as int),
{
    let v = chars_of(s);
    let start: usize = if v.len() > 0 && v[0] == '+' {
        1
    } else {
        0
    };
    let ghost ds = v@.skip(start as int);
    assert(start == 0 ==> ds =~= s@);
    assert(start == 1 ==> ds =~= s@.drop_first());
    if start == v.len() {
        return None;
    }
    let mut n: u64 = 0;
    let mut i: usize = start;
    assert(ds.take(0) =~= Seq::<char>::empty());
    while i < v.len()
        invariant
            start <= i <= v@.len(),
            start < v@.len(),
            v@ == s@,
            ds == v@.skip(start as int),
            digits_value(ds.take(i - start)) == Some(n as int),
            n <= u32::MAX,
            number_in(s@, u32::MAX as int) is Some ==> digits_value(ds) is Some && digits_value(
                ds,
            )->0 <= u32::MAX,
            ds.len() > 0,
        decreases v@.len() - i,
    {
        let c: char = v[i];
        let ghost next = ds.take(i - start + 1);
        assert(next.drop_last() =~= ds.take(i - start));
        assert(next.last() == c);
        if c < '0' || c > '9' {
            proof {
                if digits_value(ds) is Some {
                    lemma_digits_prefix(ds, i - start + 1);
                }
            }
            return None;
        }
        let d: u64 = (c as u32 - 48) as u64;
        n = n * 10 + d;
        if n > u32::MAX as u64 {
            proof {
                if digits_value(ds) is Some {
                    lemma_digits_prefix(ds, i - start + 1);
                }
            }
            return None;
        }
        i += 1;
    }
    assert(ds.take(ds.len() as int) =~= ds);
    Some(n as u32)
}

/// The lower-case form of a text, as `str::to_lowercase` gives it.
pub uninterp spec fn lowercased(s: Seq<char>) -> Seq<char>;

/// `str::to_lowercase`: the lower-case equivalent of a text, which the text alone determines.
#[verifier::external_body]
pub(crate) fn to_lowercase(s: &str) -> (out: String)
    ensures
        out@ == lowercased(s@),
{
    s.to_lowercase()
}

/// The digits of a number are read back as that number, and none is needless.
pub proof fn law_numbers_are_read_back(n: nat)
    ensures
        digits_value(decimal(n)) == Some(n as int),
        decimal(n).len() > 0,
        n > 0 ==> decimal(n)[0] != '0',
        number_in(decimal(n), n as int) == Some(n as int),
        n > 0 ==> number_in(decimal(n), n - 1) is None,
    decreases n,
{
    lemma_decimal_digits(n);
    if n >= 10 {
        law_numbers_are_read_back(n / 10);
        let d = decimal(n / 10);
        assert(decimal(n).drop_last() =~= d);
        assert(decimal(n)[0] == d[0]);
    } else {
        let s = decimal(n);
        assert(s.drop_last() =~= Seq::<char>::empty());
        assert(digits_value(s.drop_last()) == Some(0int));
    }
    assert('0' <= decimal(n)[0] <= '9');
}

proof fn lemma_zeros(k: nat, s: Seq<char>)
    ensures
        digits_value(Seq::new(k, |i: int| '0') + s) == digits_value(s),
    decreases s.len(), k,
{
    let z = Seq::new(k, |i: int| '0');
    if s.len() > 0 {
        lemma_zeros(k, s.drop_last());
        assert((z + s).drop_last() =~= z + s.drop_last());
    } else if k > 0 {
        let y = Seq::new((k - 1) as nat, |i: int| '0');
        lemma_zeros((k - 1) as nat, s);
        assert((z + s).drop_last() =~= y + s);
    } else {
        assert(z + s =~= s);
    }
}

/// Zeros in front of a number fill its width and do not change it.
pub proof fn law_padding_keeps_the_number(n: nat, width: nat)
    ensures
        ({
            let p = zero_padded(decimal(n), width);
            &&& digits_value(p) == Some(n as int)
            &&& p.len() >= width
            &&& p.len() == width || p == decimal(n)
            &&& decimal(n).is_suffix_of(p)
        }),
{
    law_numbers_are_read_back(n);
    let d = decimal(n);
    let p = zero_padded(d, width);
    assert(p.subrange(p.len() - d.len(), p.len() as int) =~= d);
    if d.len() < width {
        lemma_zeros((width - d.len()) as nat, d);
    }
}

/// Letters are the same up to their case, and nothing else is; it is one relation among texts.
pub proof fn law_case_of_letters_does_not_count(a: Seq<char>, b: Seq<char>, c: Seq<char>, x: char)
    ensures
        'A' <= x && x <= 'Z' ==> ascii_lower(x) as int == x as int + 32,
        !('A' <= x && x <= 'Z') ==> ascii_lower(x) == x,
        same_ignoring_case(a, a),
        same_ignoring_case(a, b) ==> same_ignoring_case(b, a),
        same_ignoring_case(a, b) && same_ignoring_case(b, c) ==> same_ignoring_case(a, c),
        same_ignoring_case(a, b) ==> a.len() == b.len(),
{
    if same_ignoring_case(a, b) {
        assert forall|i: int| 0 <= i < b.len() implies ascii_lower(#[trigger] b[i]) == ascii_lower(
            a[i],
        ) by {
            assert(ascii_lower(a[i]) == ascii_lower(b[i]));
        }
        if same_ignoring_case(b, c) {
            assert forall|i: int| 0 <= i < a.len() implies ascii_lower(#[trigger] a[i])
                == ascii_lower(c[i]) by {
                assert(ascii_lower(a[i]) == ascii_lower(b[i]));
                assert(ascii_lower(b[i]) == ascii_lower(c[i]));
            }
        }
    }
}

/// What is trimmed off a text is white space at its ends, and nothing of that is left.
pub proof fn law_trimming_takes_white_ends(front: Seq<char>, s: Seq<char>, back: Seq<char>)
    requires
        forall|i: int| 0 <= i < front.len() ==> is_white(#[trigger] front[i]),
        forall|i: int| 0 <= i < back.len() ==> is_white(#[trigger] back[i]),
        s.len() > 0 ==> !is_white(s[0]) && !is_white(s.last()),
    ensures
        trimmed(front + s + back) == s,
{
    let t = front + s + back;
    let n = front.len() as int;
    if s.len() > 0 {
        assert forall|i: int| 0 <= i < n implies is_white(#[trigger] t[i]) by {
            assert(t[i] == front[i]);
        }
        assert(t[n] == s[0]);
        lemma_trim_white_front(t, n);
        let u = t.skip(n);
        assert(u =~= s + back);
        assert forall|i: int| s.len() <= i < u.len() implies is_white(#[trigger] u[i]) by {
            assert(u[i] == back[i - s.len()]);
        }
        assert(u[s.len() - 1] == s.last());
        lemma_trim_white_back(u, s.len() as int);
        assert(u.take(s.len() as int) =~= s);
    } else {
        assert forall|i: int| 0 <= i < t.len() implies is_white(#[trigger] t[i]) by {
            if i < n {
                assert(t[i] == front[i]);
            } else {
                assert(t[i] == back[i - n]);
            }
        }
        lemma_trim_white_front(t, t.len() as int);
        assert(t.skip(t.len() as int) =~= s);
        lemma_trim_white_back(s, 0);
        assert(s.take(0) =~= s);
    }
}

/// Blanks, tabs and the ends of lines are white space; letters, digits and marks are not.
pub proof fn law_blanks_are_white(c: char)
    ensures
        is_white(' ') && is_white('\t') && is_white('\n') && is_white('\r'),
        '!' <= c && c <= '~' ==> !is_white(c),
{
}

/// Words are what white space keeps apart: a word behind it is one more, and white space at the
/// end adds none.
pub proof fn law_words_are_kept_apart(s: Seq<char>, w: Seq<char>, c: char)
    requires
        is_white(c),
        w.len() > 0,
        forall|i: int| 0 <= i < w.len() ==> !is_white(#[trigger] w[i]),
    ensures
        words(s.push(c)) == words(s),
        words(s.push(c) + w) == words(s).push(w),
        words(w) == seq![w],
    decreases w.len(),
{
    assert(s.push(c).drop_last() =~= s);
    let v = w.drop_last();
    let t = s.push(c) + w;
    assert(t.drop_last() =~= s.push(c) + v);
    assert(t.last() == w.last());
    if w.len() == 1 {
        assert(s.push(c) + v =~= s.push(c));
        assert(t[t.len() - 2] == c);
        assert(seq![t.last()] =~= w);
        assert(words(v) =~= Seq::<Seq<char>>::empty());
        assert(words(w) =~= seq![w]);
    } else {
        assert forall|i: int| 0 <= i < v.len() implies !is_white(#[trigger] v[i]) by {
            assert(v[i] == w[i]);
        }
        law_words_are_kept_apart(s, v, c);
        assert(t[t.len() - 2] == w[w.len() - 2]);
        let rest = words(s).push(v);
        assert(rest.drop_last() =~= words(s));
        assert(v.push(w.last()) =~= w);
        assert(words(t) =~= words(s).push(w));
        assert(seq![v].drop_last() =~= Seq::<Seq<char>>::empty());
        assert(words(w) =~= seq![w]);
    }
}

/// A text is taken apart at a character: what stands before its first occurrence comes first.
pub proof fn law_pieces_are_kept_apart(first: Seq<char>, rest: Seq<char>, c: char)
    requires
        forall|i: int| 0 <= i < first.len() ==> first[i] != c,
    ensures
        pieces(first.push(c) + rest, c) == seq![first] + pieces(rest, c),
        pieces(first, c) == seq![first],
{
    let s = first.push(c) + rest;
    lemma_first_pos_is(s, c, first.len() as int);
    lemma_first_pos_is(first, c, first.len() as int);
    assert(s.take(first.len() as int) =~= first);
    assert(s.skip(first.len() as int + 1) =~= rest);
}

proof fn lemma_line_seq(p: Seq<char>, ps: Seq<Seq<char>>, n: nat)
    requires
        n <= ps.len(),
        ps.len() > 0,
    ensures
        line_seq(seq![p] + ps, n + 1) == seq![without_return(p)] + line_seq(ps, n),
    decreases n,
{
    let all = seq![p] + ps;
    if n == 0 {
        assert(line_seq(all, 0) =~= Seq::<Seq<char>>::empty());
        assert(line_seq(all, 1) =~= seq![without_return(p)]);
        assert(line_seq(ps, 0) =~= Seq::<Seq<char>>::empty());
        assert(line_seq(all, 1) =~= seq![without_return(p)] + line_seq(ps, 0));
    } else {
        lemma_line_seq(p, ps, (n - 1) as nat);
        assert(all[n as int] == ps[n - 1]);
        assert(line_seq(all, n + 1) =~= seq![without_return(p)] + line_seq(ps, n));
    }
}

/// A line ends with its line feed, and a carriage return before that is no part of it; what stands
/// behind the last line feed is a line where it is anything.
pub proof fn law_lines_end_with_a_line_feed(line: Seq<char>, rest: Seq<char>)
    requires
        forall|i: int| 0 <= i < line.len() ==> line[i] != '\n',
    ensures
        lines_of(line.push('\n') + rest) == seq![without_return(line)] + lines_of(rest),
        line.len() > 0 ==> lines_of(line) == seq![line],
        lines_of(Seq::empty()).len() == 0,
        without_return(line.push('\r')) == line,
        line.len() > 0 && line.last() != '\r' ==> without_return(line) == line,
{
    law_pieces_are_kept_apart(line, rest, '\n');
    let ps = pieces(rest, '\n');
    lemma_line_seq(line, ps, ps.len());
    assert(line.push('\r').drop_last() =~= line);
    assert(line_seq(seq![line], 0) =~= Seq::<Seq<char>>::empty());
    if line.len() > 0 {
        assert(line_seq(seq![line], 1) =~= seq![line]);
    }
    let e = Seq::<char>::empty();
    law_pieces_are_kept_apart(e, e, '\n');
    assert(line_seq(seq![e], 0) =~= Seq::<Seq<char>>::empty());
    assert(line_seq(seq![e], 1) =~= Seq::<Seq<char>>::empty());
}

/// Texts sort by the first character in which they differ, and a text before any that continues
/// it.
pub proof fn law_first_difference_decides(p: Seq<char>, a: char, b: char, x: Seq<char>, y: Seq<char>)
    ensures
        a < b ==> precedes(p.push(a) + x, p.push(b) + y) && !precedes(p.push(b) + y, p.push(a) + x),
        precedes(p, p.push(a) + x),
        !precedes(p, p),
    decreases p.len(),
{
    let s = p.push(a) + x;
    let t = p.push(b) + y;
    if p.len() > 0 {
        let q = p.drop_first();
        law_first_difference_decides(q, a, b, x, y);
        assert(s.drop_first() =~= q.push(a) + x);
        assert(t.drop_first() =~= q.push(b) + y);
        assert(s[0] == p[0] && t[0] == p[0]);
    } else {
        assert(s[0] == a && t[0] == b);
    }
}

/// The digits of a number in base sixteen follow from those of its sixteenth, and are small
/// letters behind nine.
pub proof fn law_hexadecimal_digits(n: nat, d: nat)
    requires
        d < 16,
    ensures
        n > 0 ==> hexadecimal(16 * n + d) == hexadecimal(n) + hexadecimal(d),
        hexadecimal(d).len() == 1,
        d < 10 ==> hexadecimal(d)[0] as int == '0' as int + d,
        d >= 10 ==> hexadecimal(d)[0] as int == 'a' as int + (d - 10),
{
    if n > 0 {
        let m = 16 * n + d;
        assert(m / 16 == n && m % 16 == d);
        assert(hexadecimal(m) =~= hexadecimal(n) + hexadecimal(d));
    }
}

/// Only the character to be replaced is replaced, wherever it stands.
pub proof fn law_only_that_character_is_replaced(s: Seq<char>, from: char, to: char, i: int)
    requires
        0 <= i < s.len(),
    ensures
        replaced(s, from, to).len() == s.len(),
        s[i] == from ==> replaced(s, from, to)[i] == to,
        s[i] != from ==> replaced(s, from, to)[i] == s[i],
{
}

/// A text occurs in every text that holds it, and one in which it occurs holds it between what
/// stands before and behind.
pub proof fn law_occurrences_stand_between_two_parts(
    front: Seq<char>,
    pat: Seq<char>,
    back: Seq<char>,
    s: Seq<char>,
)
    ensures
        occurs(front + pat + back, pat),
        occurs(s, pat) ==> exists|i: int|
            0 <= i <= s.len() - pat.len() && s == #[trigger] s.take(i) + pat + s.skip(
                i + pat.len(),
            ),
{
    let t = front + pat + back;
    assert(t.subrange(front.len() as int, (front.len() + pat.len()) as int) =~= pat);
    assert(occurs_at(t, pat, front.len() as int));
    if occurs(s, pat) {
        let i = choose|i: int| #[trigger] occurs_at(s, pat, i);
        assert(0 <= i <= s.len() - pat.len());
        assert forall|k: int| 0 <= k < pat.len() implies s[i + k] == #[trigger] pat[k] by {
            assert(s.subrange(i, i + pat.len())[k] == pat[k]);
        }
        assert(s =~= s.take(i) + pat + s.skip(i + pat.len()));
    }
}

} // verus!
