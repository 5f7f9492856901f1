//! Text helpers: strings are modelled as sequences of characters, and every
//! helper states its result over that model.
use vstd::prelude::*;
use vstd::string::*;

verus! {

/// Characters with the Unicode `White_Space` property.
pub open spec fn is_white_space(c: char) -> bool {
    let v = c as u32;
    ||| 0x09 <= v <= 0x0d
    ||| v == 0x20
    ||| v == 0x85
    ||| v == 0xa0
    ||| v == 0x1680
    ||| 0x2000 <= v <= 0x200a
    ||| v == 0x2028
    ||| v == 0x2029
    ||| v == 0x202f
    ||| v == 0x205f
    ||| v == 0x3000
}

/// `String::push`: appends one character.
pub assume_specification[ String::push ](s: &mut String, c: char)
    ensures
        final(s)@ == old(s)@.push(c),
;

/// `char::is_whitespace`: whether the character has the Unicode `White_Space` property.
pub assume_specification[ char::is_whitespace ](c: char) -> (r: bool)
    ensures
        r == is_white_space(c),
;

/// The text that bytes encode, when they are valid UTF-8.
pub open spec fn utf8_text(b: Seq<u8>) -> Option<Seq<char>> {
    if vstd::utf8::valid_utf8(b) {
        Some(vstd::utf8::decode_utf8(b))
    } else {
        None
    }
}

/// `std::str::from_utf8`: the text of valid UTF-8, and an error for any other bytes.
#[verifier::external_body]
pub(crate) fn decode(b: &[u8]) -> (r: Option<String>)
    ensures
        opt_text(r) == utf8_text(b@),
{
    std::str::from_utf8(b).ok().map(str::to_owned)
}

/// The bytes of a text.
pub fn bytes_of(s: &str) -> (r: Vec<u8>)
    ensures
        r@ == vstd::utf8::encode_utf8(s@),
{
    let b = s.as_bytes();
    let mut r: Vec<u8> = Vec::new();
    let n: usize = b.len();
    for i in 0..n
        invariant
            n == b@.len(),
            r@ == b@.take(i as int),
    {
        r.push(b[i]);
        assert(b@.take(i + 1) =~= b@.take(i as int).push(b@[i as int]));
    }
    assert(b@.take(n as int) =~= b@);
    r
}

/// The position of the first `c` in `s` at or after `from`; the length of `s` when there is none.
pub open spec fn index_from(s: Seq<char>, c: char, from: int) -> int
    decreases s.len() - from,
{
    if from < 0 || from >= s.len() {
        s.len() as int
    } else if s[from] == c {
        from
    } else {
        index_from(s, c, from + 1)
    }
}

/// The part of `s` before the first `c`; all of `s` when `c` does not occur.
pub open spec fn before_char(s: Seq<char>, c: char) -> Seq<char> {
    s.take(index_from(s, c, 0))
}

/// The pieces of `s` between occurrences of `c`: one more piece than occurrences.
pub open spec fn split_on(s: Seq<char>, c: char) -> Seq<Seq<char>>
    decreases s.len(),
{
    if s.contains(c) {
        let i = index_from(s, c, 0);
        if 0 <= i < s.len() {
            seq![s.take(i)] + split_on(s.skip(i + 1), c)
        } else {
            seq![s]
        }
    } else {
        seq![s]
    }
}

/// `s` without its leading characters that satisfy `p`.
pub open spec fn drop_leading(s: Seq<char>, p: spec_fn(char) -> bool) -> Seq<char>
    decreases s.len(),
{
    if s.len() > 0 && p(s[0]) {
        drop_leading(s.skip(1), p)
    } else {
        s
    }
}

/// `s` without its trailing characters that satisfy `p`.
pub open spec fn drop_trailing(s: Seq<char>, p: spec_fn(char) -> bool) -> Seq<char>
    decreases s.len(),
{
    if s.len() > 0 && p(s.last()) {
        drop_trailing(s.drop_last(), p)
    } else {
        s
    }
}

/// The predicate that holds of `c` alone.
pub open spec fn only(c: char) -> spec_fn(char) -> bool {
    |x: char| x == c
}

/// The white-space predicate as a value.
pub open spec fn white() -> spec_fn(char) -> bool {
    |x: char| is_white_space(x)
}

/// `s` without leading and trailing white space.
pub open spec fn trimmed(s: Seq<char>) -> Seq<char> {
    drop_trailing(drop_leading(s, white()), white())
}

/// `s` without as many leading copies of `p` as there are.
pub open spec fn drop_prefixes(s: Seq<char>, p: Seq<char>) -> Seq<char>
    decreases s.len(),
{
    if p.len() > 0 && p.is_prefix_of(s) {
        drop_prefixes(s.skip(p.len() as int), p)
    } else {
        s
    }
}

/// `s` with every leftmost, non-overlapping copy of `pat` replaced by `with`.
pub open spec fn replaced(s: Seq<char>, pat: Seq<char>, with: Seq<char>) -> Seq<char>
    decreases s.len(),
{
    if pat.len() == 0 || s.len() == 0 {
        s
    } else if pat.is_prefix_of(s) {
        with + replaced(s.skip(pat.len() as int), pat, with)
    } else {
        seq![s[0]] + replaced(s.skip(1), pat, with)
    }
}

/// Whether `pat` occurs in `s`.
pub open spec fn occurs(s: Seq<char>, pat: Seq<char>) -> bool {
    exists|i: int| 0 <= i <= s.len() - pat.len() && #[trigger] s.subrange(i, i + pat.len()) == pat
}

/// The lower-case form of an ASCII letter; any other character unchanged.
pub open spec fn ascii_lower(c: char) -> char {
    if 'A' <= c <= 'Z' {
        ((c as u8) + 32) as u8 as char
    } else {
        c
    }
}

/// `s` with its ASCII letters in lower case.
pub open spec fn lowered(s: Seq<char>) -> Seq<char> {
    s.map_values(|c: char| ascii_lower(c))
}

/// The decimal digit of a number below ten.
pub open spec fn digit(d: int) -> char {
    (48 + d) as u8 as char
}

/// The decimal text of a natural number, without leading zeros.
pub open spec fn decimal(n: nat) -> Seq<char>
    decreases n,
{
    if n < 10 {
        seq![digit(n as int)]
    } else {
        decimal(n / 10).push(digit((n % 10) as int))
    }
}

/// The decimal text of an integer, with a minus sign in front of a negative one.
pub open spec fn decimal_int(n: int) -> Seq<char> {
    if n < 0 {
        seq!['-'] + decimal((-n) as nat)
    } else {
        decimal(n as nat)
    }
}

/// The views of a sequence of strings.
pub open spec fn texts(v: Seq<String>) -> Seq<Seq<char>> {
    v.map_values(|s: String| s@)
}

/// The characters of a string, in order.
pub fn chars_of(s: &str) -> (r: Vec<char>)
    ensures
        r@ == s@,
{
    let mut out: Vec<char> = Vec::new();
    for c in it: s.chars()
        invariant
            out@ == it.seq().take(it.index()),
            it.seq() == s@,
    {
        out.push(c);
        assert(it.seq().take(it.index() + 1) =~= it.seq().take(it.index()).push(it.seq()[it.index()]));
    }
    out
}

/// The string made of `v[from..to]`.
pub fn string_of(v: &Vec<char>, from: usize, to: usize) -> (r: String)
    requires
        from <= to <= v@.len(),
    ensures
        r@ == v@.subrange(from as int, to as int),
{
    let mut s = String::new();
    for i in from..to
        invariant
            from <= to <= v@.len(),
            s@ == v@.subrange(from as int, i as int),
    {
        s.push(v[i]);
        assert(v@.subrange(from as int, i as int + 1) =~= v@.subrange(from as int, i as int).push(
            v@[i as int],
        ));
    }
    s
}

/// Whether two strings hold the same characters.
pub fn str_eq(a: &str, b: &str) -> (r: bool)
    ensures
        r == (a@ == b@),
{
    a.to_owned() == b.to_owned()
}

/// Whether two optional strings are equal.
pub fn opt_eq(a: &Option<String>, b: &Option<String>) -> (r: bool)
    ensures
        r == (opt_text(*a) == opt_text(*b)),
{
    match (a, b) {
        (Some(x), Some(y)) => str_eq(x.as_str(), y.as_str()),
        (None, None) => true,
        _ => false,
    }
}

/// The view of an optional string.
pub open spec fn opt_text(o: Option<String>) -> Option<Seq<char>> {
    match o {
        Some(s) => Some(s@),
        None => None,
    }
}

/// A copy of an optional string.
pub fn opt_clone(o: &Option<String>) -> (r: Option<String>)
    ensures
        r == *o,
{
    match o {
        Some(s) => Some(s.clone()),
        None => None,
    }
}

/// The two texts one after the other.
pub fn concat2(a: &str, b: &str) -> (r: String)
    ensures
        r@ == a@ + b@,
{
    let mut s = a.to_owned();
    s.append(b);
    s
}

/// The three texts one after the other.
pub fn concat3(a: &str, b: &str, c: &str) -> (r: String)
    ensures
        r@ == a@ + b@ + c@,
{
    let mut s = a.to_owned();
    s.append(b);
    s.append(c);
    s
}

/// The four texts one after the other.
pub fn concat4(a: &str, b: &str, c: &str, d: &str) -> (r: String)
    ensures
        r@ == a@ + b@ + c@ + d@,
{
    let mut s = a.to_owned();
    s.append(b);
    s.append(c);
    s.append(d);
    s
}

/// Whether `p` stands in `v` at position `at`.
pub fn stands_at(v: &Vec<char>, at: usize, p: &Vec<char>) -> (r: bool)
    requires
        at <= v@.len(),
    ensures
        r == p@.is_prefix_of(v@.skip(at as int)),
{
    let n: usize = v.len() - at;
    if p.len() > n {
        return false;
    }
    for i in 0..p.len()
        invariant
            at + n == v.len(),
            p.len() <= n,
            forall|j: int| 0 <= j < i ==> #[trigger] p@[j] == v@[at + j],
    {
        if p[i] != v[at + i] {
            assert(p@[i as int] != v@.skip(at as int)[i as int]);
            assert(v@.skip(at as int).take(p@.len() as int)[i as int] == v@.skip(at as int)[i as int]);
            return false;
        }
    }
    assert(p@ =~= v@.skip(at as int).take(p@.len() as int));
    true
}

/// Whether `s` begins with `p`.
pub fn begins_with(s: &str, p: &str) -> (r: bool)
    ensures
        r == p@.is_prefix_of(s@),
{
    let v = chars_of(s);
    let q = chars_of(p);
    assert(v@.skip(0) =~= v@);
    stands_at(&v, 0, &q)
}

/// `s` without the prefix `p`, when `s` begins with it.
pub fn without_prefix(s: &str, p: &str) -> (r: Option<String>)
    ensures
        match r {
            Some(t) => p@.is_prefix_of(s@) && t@ == s@.skip(p@.len() as int),
            None => !p@.is_prefix_of(s@),
        },
{
    let v = chars_of(s);
    let q = chars_of(p);
    assert(v@.skip(0) =~= v@);
    if stands_at(&v, 0, &q) {
        let t = string_of(&v, q.len(), v.len());
        assert(t@ =~= s@.skip(p@.len() as int));
        Some(t)
    } else {
        None
    }
}

/// What the first position found means: nothing before it is `c`.
pub proof fn lemma_index_from(s: Seq<char>, c: char, from: int)
    requires
        0 <= from <= s.len(),
    ensures
        from <= index_from(s, c, from) <= s.len(),
        index_from(s, c, from) < s.len() ==> s[index_from(s, c, from)] == c,
        forall|j: int| from <= j < index_from(s, c, from) ==> #[trigger] s[j] != c,
    decreases s.len() - from,
{
    if from < s.len() && s[from] != c {
        lemma_index_from(s, c, from + 1);
    }
}

/// The position of the first `c` in `v` at or after `from`; the length when there is none.
pub fn find_char(v: &Vec<char>, c: char, from: usize) -> (r: usize)
    requires
        from <= v@.len(),
    ensures
        r == index_from(v@, c, from as int),
        from <= r <= v@.len(),
{
    proof {
        lemma_index_from(v@, c, from as int);
    }
    let mut i: usize = from;
    while i < v.len()
        invariant
            from <= i <= v@.len(),
            index_from(v@, c, from as int) == index_from(v@, c, i as int),
            from <= index_from(v@, c, from as int) <= v@.len(),
        decreases v@.len() - i,
    {
        if v[i] == c {
            return i;
        }
        i += 1;
    }
    i
}

/// The part of `s` before the first `c`.
pub fn take_before(s: &str, c: char) -> (r: String)
    ensures
        r@ == before_char(s@, c),
{
    let v = chars_of(s);
    let i = find_char(&v, c, 0);
    let t = string_of(&v, 0, i);
    assert(t@ =~= s@.take(i as int));
    t
}

/// Splitting at the first separator.
pub proof fn lemma_split_step(s: Seq<char>, c: char)
    ensures
        index_from(s, c, 0) < s.len() ==> split_on(s, c) == seq![s.take(index_from(s, c, 0))]
            + split_on(s.skip(index_from(s, c, 0) + 1), c),
        index_from(s, c, 0) >= s.len() ==> split_on(s, c) == seq![s],
        split_on(s, c).len() >= 1,
        split_on(s, c)[0] == before_char(s, c),
{
    lemma_index_from(s, c, 0);
    let i = index_from(s, c, 0);
    if i < s.len() {
        assert(s.contains(c));
        assert(split_on(s, c)[0] == s.take(i));
    } else {
        assert(!s.contains(c)) by {
            if s.contains(c) {
                let j = choose|j: int| 0 <= j < s.len() && s[j] == c;
                assert(s[j] != c);
            }
        }
        assert(s.take(i) =~= s);
    }
}

/// The position found in the rest of a sequence, measured from its start.
pub proof fn lemma_index_skip(s: Seq<char>, c: char, from: int, at: int)
    requires
        0 <= from <= s.len(),
        0 <= at <= s.len() - from,
    ensures
        index_from(s.skip(from), c, at) == index_from(s, c, from + at) - from,
    decreases s.len() - from - at,
{
    if at < s.len() - from {
        assert(s.skip(from)[at] == s[from + at]);
        if s[from + at] != c {
            lemma_index_skip(s, c, from, at + 1);
        }
    }
}

/// Splitting a text whose first piece is known.
pub proof fn lemma_split_first(a: Seq<char>, rest: Seq<char>, c: char)
    requires
        !a.contains(c),
    ensures
        split_on(a + seq![c] + rest, c) == seq![a] + split_on(rest, c),
{
    let s = a + seq![c] + rest;
    lemma_index_from(s, c, 0);
    lemma_split_step(s, c);
    let i = index_from(s, c, 0);
    assert(s[a.len() as int] == c);
    assert(s.contains(c));
    if i < a.len() {
        assert(s[i] == a[i]);
        assert(a.contains(c));
    }
    assert(i == a.len());
    assert(s.take(i) =~= a);
    assert(s.skip(i + 1) =~= rest);
}

/// A text without the character is one piece.
pub proof fn lemma_split_none(s: Seq<char>, c: char)
    requires
        !s.contains(c),
    ensures
        split_on(s, c) == seq![s],
{
    lemma_index_from(s, c, 0);
    lemma_split_step(s, c);
}

/// The pieces of `s` between occurrences of `c`.
pub fn split_char(s: &str, c: char) -> (r: Vec<String>)
    ensures
        texts(r@) == split_on(s@, c),
{
    let v = chars_of(s);
    let mut out: Vec<String> = Vec::new();
    let mut from: usize = 0;
    assert(v@.skip(0) =~= s@);
    assert(texts(out@) =~= Seq::<Seq<char>>::empty());
    loop
        invariant
            v@ == s@,
            from <= v@.len(),
            split_on(s@, c) == texts(out@) + split_on(v@.skip(from as int), c),
        decreases v@.len() - from,
    {
        let i = find_char(&v, c, from);
        let piece = string_of(&v, from, i);
        let ghost rest = v@.skip(from as int);
        let ghost before = texts(out@);
        proof {
            lemma_split_step(rest, c);
            lemma_index_skip(v@, c, from as int, 0);
            assert(rest.take(i - from) =~= piece@);
        }
        out.push(piece);
        assert(texts(out@) =~= before.push(piece@));
        if i >= v.len() {
            assert(rest.take(i - from) =~= rest);
            assert(texts(out@) =~= split_on(s@, c));
            return out;
        }
        proof {
            assert(rest.skip(i - from + 1) =~= v@.skip(i as int + 1));
            assert(texts(out@) + split_on(v@.skip(i as int + 1), c) =~= before + (seq![piece@]
                + split_on(v@.skip(i as int + 1), c)));
        }
        from = i + 1;
    }
}

/// What dropping leading characters keeps: a suffix of the text.
pub proof fn lemma_drop_leading(s: Seq<char>, p: spec_fn(char) -> bool, n: int)
    requires
        0 <= n <= s.len(),
        forall|j: int| 0 <= j < n ==> p(#[trigger] s[j]),
        n < s.len() ==> !p(s[n]),
    ensures
        drop_leading(s, p) == s.skip(n),
    decreases s.len(),
{
    if n > 0 {
        assert(p(s[0]));
        assert forall|j: int| 0 <= j < n - 1 implies p(#[trigger] s.skip(1)[j]) by {
            assert(s.skip(1)[j] == s[j + 1]);
        }
        lemma_drop_leading(s.skip(1), p, n - 1);
        assert(s.skip(1).skip(n - 1) =~= s.skip(n));
    } else {
        assert(s.skip(0) =~= s);
    }
}

/// What dropping trailing characters keeps: a prefix of the text.
pub proof fn lemma_drop_trailing(s: Seq<char>, p: spec_fn(char) -> bool, n: int)
    requires
        0 <= n <= s.len(),
        forall|j: int| n <= j < s.len() ==> p(#[trigger] s[j]),
        n > 0 ==> !p(s[n - 1]),
    ensures
        drop_trailing(s, p) == s.take(n),
    decreases s.len(),
{
    if n < s.len() {
        assert(p(s.last()));
        lemma_drop_trailing(s.drop_last(), p, n);
        assert(s.drop_last().take(n) =~= s.take(n));
    } else {
        assert(s.take(n) =~= s);
    }
}

/// `s` without leading and trailing white space.
pub fn trim(s: &str) -> (r: String)
    ensures
        r@ == trimmed(s@),
{
    let v = chars_of(s);
    let mut from: usize = 0;
    while from < v.len() && v[from].is_whitespace()
        invariant
            from <= v@.len(),
            forall|j: int| 0 <= j < from ==> is_white_space(#[trigger] v@[j]),
        decreases v@.len() - from,
    {
        from += 1;
    }
    let mut to: usize = v.len();
    while to > from && v[to - 1].is_whitespace()
        invariant
            from <= to <= v@.len(),
            forall|j: int| to <= j < v@.len() ==> is_white_space(#[trigger] v@[j]),
        decreases to,
    {
        to -= 1;
    }
    proof {
        lemma_drop_leading(v@, white(), from as int);
        let w = v@.skip(from as int);
        assert forall|j: int| to - from <= j < w.len() implies white()(#[trigger] w[j]) by {
            assert(w[j] == v@[from + j]);
        }
        if to > from {
            assert(w[to - from - 1] == v@[to - 1]);
        }
        lemma_drop_trailing(w, white(), to - from);
        assert(w.take(to - from) =~= v@.subrange(from as int, to as int));
    }
    string_of(&v, from, to)
}

/// `s` without trailing copies of the character `c`.
pub fn trim_end_char(s: &str, c: char) -> (r: String)
    ensures
        r@ == drop_trailing(s@, only(c)),
{
    let v = chars_of(s);
    let mut to: usize = v.len();
    while to > 0 && v[to - 1] == c
        invariant
            to <= v@.len(),
            forall|j: int| to <= j < v@.len() ==> #[trigger] v@[j] == c,
        decreases to,
    {
        to -= 1;
    }
    proof {
        lemma_drop_trailing(v@, only(c), to as int);
    }
    let t = string_of(&v, 0, to);
    assert(t@ =~= v@.take(to as int));
    t
}

/// `s` without leading copies of the character `c`.
pub fn trim_start_char(s: &str, c: char) -> (r: String)
    ensures
        r@ == drop_leading(s@, only(c)),
{
    let v = chars_of(s);
    let mut from: usize = 0;
    while from < v.len() && v[from] == c
        invariant
            from <= v@.len(),
            forall|j: int| 0 <= j < from ==> #[trigger] v@[j] == c,
        decreases v@.len() - from,
    {
        from += 1;
    }
    proof {
        lemma_drop_leading(v@, only(c), from as int);
    }
    let t = string_of(&v, from, v.len());
    assert(t@ =~= v@.skip(from as int));
    t
}

/// `s` without leading copies of the text `p`.
pub fn trim_start_text(s: &str, p: &str) -> (r: String)
    requires
        p@.len() > 0,
    ensures
        r@ == drop_prefixes(s@, p@),
{
    let v = chars_of(s);
    let q = chars_of(p);
    let mut from: usize = 0;
    assert(v@.skip(0) =~= v@);
    while stands_at(&v, from, &q)
        invariant
            q@ == p@,
            q@.len() > 0,
            v@ == s@,
            from <= v.len(),
            drop_prefixes(s@, p@) == drop_prefixes(v@.skip(from as int), p@),
        decreases v@.len() - from,
    {
        assert(q.len() <= v.len() - from);
        assert(v@.skip(from as int).skip(q@.len() as int) =~= v@.skip(from + q@.len()));
        from = from + q.len();
    }
    let t = string_of(&v, from, v.len());
    assert(t@ =~= v@.skip(from as int));
    t
}

/// `s` with every copy of `pat` replaced by `with`.
pub fn replace_text(s: &str, pat: &str, with: &str) -> (r: String)
    requires
        pat@.len() > 0,
    ensures
        r@ == replaced(s@, pat@, with@),
{
    let v = chars_of(s);
    let q = chars_of(pat);
    let mut out = String::new();
    let mut at: usize = 0;
    assert(v@.skip(0) =~= s@);
    while at < v.len()
        invariant
            q@ == pat@,
            q@.len() > 0,
            v@ == s@,
            at <= v@.len(),
            replaced(s@, pat@, with@) =~= out@ + replaced(v@.skip(at as int), pat@, with@),
        decreases v@.len() - at,
    {
        let ghost rest = v@.skip(at as int);
        let ghost done = out@;
        if stands_at(&v, at, &q) {
            out.append(with);
            assert(rest.skip(q@.len() as int) =~= v@.skip(at + q@.len()));
            assert(done + (with@ + replaced(v@.skip(at + q@.len()), pat@, with@)) =~= (done + with@)
                + replaced(v@.skip(at + q@.len()), pat@, with@));
            at = at + q.len();
        } else {
            out.push(v[at]);
            assert(rest.skip(1) =~= v@.skip(at as int + 1));
            assert(rest[0] == v@[at as int]);
            assert(done + (seq![rest[0]] + replaced(v@.skip(at as int + 1), pat@, with@))
                =~= done.push(rest[0]) + replaced(v@.skip(at as int + 1), pat@, with@));
            at = at + 1;
        }
    }
    assert(v@.skip(at as int) =~= Seq::<char>::empty());
    out
}

/// Whether `pat` occurs in `s`.
pub fn contains_text(s: &str, pat: &str) -> (r: bool)
    ensures
        r == occurs(s@, pat@),
{
    let v = chars_of(s);
    let q = chars_of(pat);
    let mut at: usize = 0;
    while at <= v.len()
        invariant
            q@ == pat@,
            v@ == s@,
            at <= v@.len() + 1,
            forall|i: int|
                0 <= i < at && i <= s@.len() - pat@.len() ==> #[trigger] s@.subrange(i, i + pat@.len())
                    != pat@,
        decreases v@.len() + 1 - at,
    {
        if stands_at(&v, at, &q) {
            proof {
                let rest = v@.skip(at as int);
                assert(pat@.len() <= rest.len());
                assert(s@.subrange(at as int, at + pat@.len()) =~= rest.take(pat@.len() as int));
                assert(rest.take(pat@.len() as int) == pat@);
            }
            return true;
        }
        proof {
            if at <= s@.len() - pat@.len() {
                let rest = v@.skip(at as int);
                assert(s@.subrange(at as int, at + pat@.len()) =~= rest.take(pat@.len() as int));
            }
        }
        if at == v.len() {
            return false;
        }
        at = at + 1;
    }
    false
}

/// The lower-case form of an ASCII letter; any other character unchanged.
pub fn to_ascii_lower_char(c: char) -> (r: char)
    ensures
        r == ascii_lower(c),
{
    if 'A' <= c && c <= 'Z' {
        ((c as u8) + 32) as char
    } else {
        c
    }
}

/// `s` with its ASCII letters in lower case.
pub fn to_ascii_lower(s: &str) -> (r: String)
    ensures
        r@ == lowered(s@),
{
    let v = chars_of(s);
    let mut out = String::new();
    for i in 0..v.len()
        invariant
            v@ == s@,
            out@ == lowered(s@).take(i as int),
    {
        out.push(to_ascii_lower_char(v[i]));
        assert(lowered(s@).take(i as int + 1) =~= lowered(s@).take(i as int).push(
            lowered(s@)[i as int],
        ));
    }
    assert(lowered(s@).take(v@.len() as int) =~= lowered(s@));
    out
}

/// Whether two texts are equal up to the case of ASCII letters.
pub fn eq_ignoring_ascii_case(a: &str, b: &str) -> (r: bool)
    ensures
        r == (lowered(a@) == lowered(b@)),
{
    let x = to_ascii_lower(a);
    let y = to_ascii_lower(b);
    x == y
}

/// The decimal text of a number.
pub fn to_decimal(n: u64) -> (r: String)
    ensures
        r@ == decimal(n as nat),
    decreases n,
{
    let d: u8 = 48 + (n % 10) as u8;
    let c: char = d as char;
    if n < 10 {
        let mut s = String::new();
        s.push(c);
        assert(s@ =~= seq![digit(n as int)]);
        s
    } else {
        let mut s = to_decimal(n / 10);
        s.push(c);
        s
    }
}

/// The decimal text of a signed number.
pub fn to_decimal_signed(n: i64) -> (r: String)
    ensures
        r@ == decimal_int(n as int),
{
    if n >= 0 {
        to_decimal(n as u64)
    } else {
        let m: u64 = (-(n + 1)) as u64 + 1;
        let d = to_decimal(m);
        let mut s = String::new();
        s.push('-');
        s.append(d.as_str());
        assert(s@ =~= seq!['-'] + decimal((-n) as nat));
        s
    }
}

/// Whether a list of strings holds `s`.
pub fn holds_text(v: &Vec<String>, s: &str) -> (r: bool)
    ensures
        r == texts(v@).contains(s@),
{
    for i in 0..v.len()
        invariant
            forall|j: int| 0 <= j < i ==> texts(v@)[j] != s@,
    {
        if str_eq(v[i].as_str(), s) {
            assert(texts(v@)[i as int] == s@);
            return true;
        }
        assert(texts(v@)[i as int] == v@[i as int]@);
    }
    false
}

/// A copy of a list of strings.
pub fn clone_texts(v: &Vec<String>) -> (r: Vec<String>)
    ensures
        r@ == v@,
{
    let mut out: Vec<String> = Vec::new();
    for i in 0..v.len()
        invariant
            out@ == v@.take(i as int),
    {
        out.push(v[i].clone());
        assert(v@.take(i as int + 1) =~= v@.take(i as int).push(v@[i as int]));
    }
    assert(v@.take(v@.len() as int) =~= v@);
    out
}

/// Whether the character is an ASCII digit.
pub open spec fn is_digit(c: char) -> bool {
    '0' <= c <= '9'
}

/// The number that a sequence of digits stands for.
pub open spec fn digits_value(s: Seq<char>) -> int
    decreases s.len(),
{
    if s.len() == 0 {
        0
    } else {
        digits_value(s.drop_last()) * 10 + (s.last() as int - '0' as int)
    }
}

/// Whether the text is one digit or more, and nothing else.
pub open spec fn all_digits(s: Seq<char>) -> bool {
    s.len() > 0 && forall|i: int| 0 <= i < s.len() ==> is_digit(#[trigger] s[i])
}

/// The text without a leading sign.
pub open spec fn unsigned_part(s: Seq<char>) -> Seq<char> {
    if s.len() > 0 && (s[0] == '-' || s[0] == '+') {
        s.skip(1)
    } else {
        s
    }
}

/// The integer that a text stands for: digits, possibly after a sign.
pub open spec fn int_of_text(s: Seq<char>) -> Option<int> {
    if all_digits(unsigned_part(s)) {
        if s[0] == '-' {
            Some(-digits_value(unsigned_part(s)))
        } else {
            Some(digits_value(unsigned_part(s)))
        }
    } else {
        None
    }
}

/// A number of digits stands for no less than a shorter one.
pub proof fn lemma_digits_value_grows(s: Seq<char>, n: int)
    requires
        0 <= n <= s.len(),
        forall|i: int| 0 <= i < s.len() ==> is_digit(#[trigger] s[i]),
    ensures
        0 <= digits_value(s.take(n)) <= digits_value(s),
    decreases s.len(),
{
    if n == s.len() {
        assert(s.take(n) =~= s);
        if s.len() > 0 {
            lemma_digits_value_grows(s.drop_last(), n - 1);
            assert(s.drop_last().take(n - 1) =~= s.drop_last());
            assert(is_digit(s.last()));
        }
    } else {
        lemma_digits_value_grows(s.drop_last(), n);
        assert(s.drop_last().take(n) =~= s.take(n));
        assert(is_digit(s.last()));
    }
}

/// The integer that a text stands for, when it lies between -`limit` and `limit` - 1.
pub fn parse_bounded(s: &str, limit: u64) -> (r: Option<i64>)
    requires
        0 < limit <= 0x8000_0000,
    ensures
        match r {
            Some(v) => int_of_text(s@) == Some(v as int) && -limit <= v < limit,
            None => int_of_text(s@) is None || !(-limit <= int_of_text(s@)->0 < limit),
        },
{
    let v = chars_of(s);
    let mut from: usize = 0;
    let mut negative = false;
    if v.len() > 0 {
        if v[0] == '-' {
            negative = true;
            from = 1;
        } else if v[0] == '+' {
            from = 1;
        }
    }
    let ghost u = unsigned_part(s@);
    assert(u =~= v@.skip(from as int));
    if from >= v.len() {
        assert(u.len() == 0);
        return None;
    }
    let mut value: u64 = 0;
    let mut i: usize = from;
    assert(u.take(0) =~= Seq::<char>::empty());
    while i < v.len()
        invariant
            v@ == s@,
            from <= 1,
            from <= i <= v.len(),
            u == v@.skip(from as int),
            u == unsigned_part(s@),
            u.len() == v.len() - from,
            negative == (s@[0] == '-'),
            0 < limit <= 0x8000_0000,
            value <= limit,
            value == digits_value(u.take(i - from)),
            forall|j: int| 0 <= j < i - from ==> is_digit(#[trigger] u[j]),
        decreases v.len() - i,
    {
        let c = v[i];
        assert(u[i - from] == c);
        if !('0' <= c && c <= '9') {
            assert(!is_digit(u[i - from]));
            return None;
        }
        let d: u64 = (c as u64) - ('0' as u64);
        assert(u.take(i - from + 1).drop_last() =~= u.take(i - from));
        let next: u64 = value * 10 + d;
        assert(next == digits_value(u.take(i - from + 1)));
        if next > limit {
            proof {
                if all_digits(u) {
                    lemma_digits_value_grows(u, i - from + 1);
                }
            }
            return None;
        }
        value = next;
        i = i + 1;
    }
    assert(u.take(v.len() - from) =~= u);
    assert(all_digits(u));
    if negative {
        Some(-(value as i64))
    } else if value < limit {
        Some(value as i64)
    } else {
        None
    }
}

/// `parse::<i32>`: the number that the text stands for, when it fits.
pub fn parse_i32(s: &str) -> (r: Option<i32>)
    ensures
        match r {
            Some(v) => int_of_text(s@) == Some(v as int),
            None => int_of_text(s@) is None || !(i32::MIN <= int_of_text(s@)->0 <= i32::MAX),
        },
{
    match parse_bounded(s, 0x8000_0000) {
        Some(v) => Some(v as i32),
        None => None,
    }
}

/// The decimal text of a number is made of digits.
pub proof fn lemma_decimal_digits(n: nat)
    ensures
        all_digits(decimal(n)),
        decimal(n).len() > 0,
        digits_value(decimal(n)) == n,
        n > 0 ==> decimal(n)[0] != '0',
    decreases n,
{
    let s = decimal(n);
    if n < 10 {
        assert(s.drop_last() =~= Seq::<char>::empty());
        assert(s.last() == digit(n as int));
        assert(s[0] == digit(n as int));
        reveal_with_fuel(digits_value, 2);
    } else {
        lemma_decimal_digits(n / 10);
        assert(s.drop_last() =~= decimal(n / 10));
        assert(s.last() == digit((n % 10) as int));
        assert forall|i: int| 0 <= i < s.len() implies is_digit(#[trigger] s[i]) by {
            if i < s.len() - 1 {
                assert(s[i] == decimal(n / 10)[i]);
            }
        }
        assert(s[0] == decimal(n / 10)[0]);
        assert(digits_value(s) == (n / 10) * 10 + n % 10);
    }
}

/// Different numbers have different texts.
pub proof fn lemma_decimal_int_injective(a: int, b: int)
    requires
        decimal_int(a) == decimal_int(b),
    ensures
        a == b,
{
    let (p, q) = (if a < 0 {
        -a
    } else {
        a
    }, if b < 0 {
        -b
    } else {
        b
    });
    lemma_decimal_digits(p as nat);
    lemma_decimal_digits(q as nat);
    if a < 0 {
        assert(decimal_int(a)[0] == '-');
        assert(decimal_int(a).skip(1) =~= decimal(p as nat));
    } else {
        assert(is_digit(decimal_int(a)[0]));
    }
    if b < 0 {
        assert(decimal_int(b)[0] == '-');
        assert(decimal_int(b).skip(1) =~= decimal(q as nat));
    } else {
        assert(is_digit(decimal_int(b)[0]));
    }
    assert(decimal(p as nat) == decimal(q as nat));
}

/// The decimal text of a number is read back as the number.
pub proof fn law_decimal_is_read_back(n: nat)
    ensures
        int_of_text(decimal(n)) == Some(n as int),
{
    lemma_decimal_digits(n);
    assert(is_digit(decimal(n)[0]));
    assert(unsigned_part(decimal(n)) == decimal(n));
}

/// The lines of a text: what stands between line feeds, without a carriage return before one.
/// After the last line feed there is a line only if something stands there.
pub open spec fn lines_of(s: Seq<char>) -> Seq<Seq<char>>
    decreases s.len(),
{
    let i = index_from(s, '\n', 0);
    if s.len() == 0 {
        Seq::empty()
    } else if 0 <= i < s.len() {
        seq![without_return(s.take(i))] + lines_of(s.skip(i + 1))
    } else {
        seq![s]
    }
}

/// The text without a carriage return at its end.
pub open spec fn without_return(s: Seq<char>) -> Seq<char> {
    if s.len() > 0 && s.last() == '\r' {
        s.drop_last()
    } else {
        s
    }
}

/// The lines of a text.
pub fn lines(s: &str) -> (r: Vec<String>)
    ensures
        texts(r@) == lines_of(s@),
{
    let v = chars_of(s);
    let mut out: Vec<String> = Vec::new();
    let mut from: usize = 0;
    assert(v@.skip(0) =~= v@);
    assert(texts(out@) + lines_of(v@.skip(0)) =~= lines_of(s@));
    while from < v.len()
        invariant
            v@ == s@,
            from <= v@.len(),
            texts(out@) + lines_of(v@.skip(from as int)) == lines_of(s@),
        decreases v@.len() - from,
    {
        let i = find_char(&v, '\n', from);
        let ghost rest = v@.skip(from as int);
        let ghost before = texts(out@);
        proof {
            lemma_index_skip(v@, '\n', from as int, 0);
        }
        if i >= v.len() {
            let piece = string_of(&v, from, v.len());
            assert(piece@ =~= rest);
            out.push(piece);
            assert(texts(out@) =~= before.push(piece@));
            assert(texts(out@) =~= before + lines_of(rest));
            return out;
        }
        let to: usize = if i > from && v[i - 1] == '\r' {
            i - 1
        } else {
            i
        };
        let piece = string_of(&v, from, to);
        proof {
            let t = rest.take(i - from);
            assert(t =~= v@.subrange(from as int, i as int));
            if i > from {
                assert(t.last() == v@[i - 1]);
            }
            assert(piece@ =~= without_return(t));
            assert(rest.skip(i - from + 1) =~= v@.skip(i as int + 1));
        }
        out.push(piece);
        assert(texts(out@) =~= before.push(piece@));
        assert(texts(out@) + lines_of(v@.skip(i as int + 1)) =~= before + (seq![piece@] + lines_of(
            v@.skip(i as int + 1),
        )));
        from = i + 1;
    }
    assert(v@.skip(from as int) =~= Seq::<char>::empty());
    assert(texts(out@) =~= lines_of(s@));
    out
}

/// What stands before and after the first occurrence of a character.
pub open spec fn split_first(s: Seq<char>, c: char) -> Option<(Seq<char>, Seq<char>)> {
    let i = index_from(s, c, 0);
    if 0 <= i < s.len() {
        Some((s.take(i), s.skip(i + 1)))
    } else {
        None
    }
}

/// What stands before and after the first occurrence of a character.
pub fn split_once(s: &str, c: char) -> (r: Option<(String, String)>)
    ensures
        match r {
            Some(p) => split_first(s@, c) == Some((p.0@, p.1@)),
            None => split_first(s@, c) is None,
        },
{
    let v = chars_of(s);
    let i = find_char(&v, c, 0);
    if i >= v.len() {
        return None;
    }
    let a = string_of(&v, 0, i);
    let b = string_of(&v, i + 1, v.len());
    assert(a@ =~= s@.take(i as int));
    assert(b@ =~= s@.skip(i + 1));
    Some((a, b))
}

/// The number that a text of digits, possibly after a plus sign, stands for, up to a limit.
pub open spec fn unsigned_of(s: Seq<char>, limit: int) -> Option<int> {
    let d = if s.len() > 0 && s[0] == '+' {
        s.skip(1)
    } else {
        s
    };
    if all_digits(d) && digits_value(d) <= limit {
        Some(digits_value(d))
    } else {
        None
    }
}

/// The number that a text of digits stands for, up to a limit.
pub fn parse_unsigned(s: &str, limit: u64) -> (r: Option<u64>)
    requires
        limit <= 0xffff_ffff,
    ensures
        match r {
            Some(n) => unsigned_of(s@, limit as int) == Some(n as int),
            None => unsigned_of(s@, limit as int) is None,
        },
{
    let v = chars_of(s);
    let from: usize = if v.len() > 0 && v[0] == '+' {
        1
    } else {
        0
    };
    let ghost d = v@.skip(from as int);
    assert(v@.skip(0) =~= v@);
    if from >= v.len() {
        assert(d.len() == 0);
        return None;
    }
    let mut value: u64 = 0;
    let mut i: usize = from;
    assert(d.take(0) =~= Seq::<char>::empty());
    while i < v.len()
        invariant
            limit <= 0xffff_ffff,
            from <= i <= v@.len(),
            from <= 1,
            v@ == s@,
            d == v@.skip(from as int),
            d == if s@.len() > 0 && s@[0] == '+' {
                s@.skip(1)
            } else {
                s@
            },
            value <= limit,
            value == digits_value(d.take(i - from)),
            forall|j: int| 0 <= j < i - from ==> is_digit(#[trigger] d[j]),
        decreases v@.len() - i,
    {
        let c: char = v[i];
        assert(d[i - from] == c);
        if c < '0' || c > '9' {
            assert(!is_digit(d[i - from]));
            return None;
        }
        proof {
            assert(d.take(i - from + 1).drop_last() =~= d.take(i - from));
            assert(d.take(i - from + 1).last() == c);
        }
        let next: u64 = value * 10 + (c as u64 - '0' as u64);
        if next > limit {
            proof {
                if all_digits(d) {
                    lemma_digits_value_grows(d, i - from + 1);
                }
            }
            return None;
        }
        value = next;
        i = i + 1;
    }
    assert(d.take(v.len() - from) =~= d);
    Some(value)
}

/// What stands before a character holds none of it, and the text goes on with that character or
/// ends.
pub proof fn law_part_before_ends_at_the_character(s: &str, c: char, r: String)
    requires
        call_ensures(take_before, (s, c), r),
    ensures
        !r@.contains(c),
        r@ == s@ || (r@ + seq![c]).is_prefix_of(s@),
{
    lemma_index_from(s@, c, 0);
    let i = index_from(s@, c, 0);
    if i < s@.len() {
        assert(s@.take(i + 1) =~= s@.take(i) + seq![c]);
    } else {
        assert(s@.take(i) =~= s@);
    }
}

/// A text that is split once is the two parts with the character between them, which the first
/// part does not hold; it is not split only if it does not hold the character.
pub proof fn law_text_is_split_at_the_first_character(s: &str, c: char, r: Option<(String, String)>)
    requires
        call_ensures(split_once, (s, c), r),
    ensures
        r is None <==> !s@.contains(c),
        r matches Some(p) ==> s@ == p.0@ + seq![c] + p.1@ && !p.0@.contains(c),
{
    lemma_index_from(s@, c, 0);
    let i = index_from(s@, c, 0);
    if i < s@.len() {
        assert(s@[i] == c);
        assert(s@ =~= s@.take(i) + seq![c] + s@.skip(i + 1));
    }
}

/// The pieces with the character between each two.
pub open spec fn joined(pieces: Seq<Seq<char>>, c: char) -> Seq<char>
    decreases pieces.len(),
{
    if pieces.len() == 0 {
        Seq::empty()
    } else if pieces.len() == 1 {
        pieces[0]
    } else {
        pieces[0] + seq![c] + joined(pieces.skip(1), c)
    }
}

proof fn lemma_split_joins(s: Seq<char>, c: char)
    ensures
        split_on(s, c).len() > 0,
        joined(split_on(s, c), c) == s,
        forall|i: int| 0 <= i < split_on(s, c).len() ==> !(#[trigger] split_on(s, c)[i]).contains(c),
    decreases s.len(),
{
    lemma_index_from(s, c, 0);
    let i = index_from(s, c, 0);
    if s.contains(c) {
        let j = choose|j: int| 0 <= j < s.len() && s[j] == c;
        assert(s[j] == c);
        assert(i < s.len());
        let rest = split_on(s.skip(i + 1), c);
        lemma_split_joins(s.skip(i + 1), c);
        assert(split_on(s, c) =~= seq![s.take(i)] + rest);
        assert((seq![s.take(i)] + rest).skip(1) =~= rest);
        assert(s =~= s.take(i) + seq![c] + s.skip(i + 1));
        assert forall|k: int| 0 <= k < split_on(s, c).len() implies !(#[trigger] split_on(
            s,
            c,
        )[k]).contains(c) by {
            if k > 0 {
                assert(split_on(s, c)[k] == rest[k - 1]);
            }
        }
    }
}

/// No piece of a split text holds the character, and the pieces with it between them are the text.
pub proof fn law_pieces_make_up_the_text(s: &str, c: char, r: Vec<String>)
    requires
        call_ensures(split_char, (s, c), r),
    ensures
        joined(texts(r@), c) == s@,
        forall|i: int| 0 <= i < r@.len() ==> !(#[trigger] r@[i])@.contains(c),
{
    lemma_split_joins(s@, c);
    assert forall|i: int| 0 <= i < r@.len() implies !(#[trigger] r@[i])@.contains(c) by {
        assert(texts(r@)[i] == r@[i]@);
    }
}

proof fn lemma_leading_dropped(s: Seq<char>, p: spec_fn(char) -> bool)
    ensures
        ({
            let r = drop_leading(s, p);
            let n = s.len() - r.len();
            &&& n >= 0
            &&& s.skip(n) == r
            &&& forall|i: int| 0 <= i < n ==> p(#[trigger] s[i])
            &&& r.len() > 0 ==> !p(r[0])
        }),
    decreases s.len(),
{
    if s.len() > 0 && p(s[0]) {
        let less = s.skip(1);
        lemma_leading_dropped(less, p);
        let r = drop_leading(less, p);
        let n = s.len() - r.len();
        assert(less.skip(n - 1) =~= s.skip(n));
        assert forall|i: int| 0 <= i < n implies p(#[trigger] s[i]) by {
            if i > 0 {
                assert(s[i] == less[i - 1]);
            }
        }
    } else {
        assert(s.skip(0) =~= s);
    }
}

proof fn lemma_trailing_dropped(s: Seq<char>, p: spec_fn(char) -> bool)
    ensures
        ({
            let r = drop_trailing(s, p);
            &&& r.len() <= s.len()
            &&& s.take(r.len() as int) == r
            &&& forall|i: int| r.len() <= i < s.len() ==> p(#[trigger] s[i])
            &&& r.len() > 0 ==> !p(r.last())
        }),
    decreases s.len(),
{
    if s.len() > 0 && p(s.last()) {
        let less = s.drop_last();
        lemma_trailing_dropped(less, p);
        let r = drop_trailing(less, p);
        assert(less.take(r.len() as int) =~= s.take(r.len() as int));
        assert forall|i: int| r.len() <= i < s.len() implies p(#[trigger] s[i]) by {
            if i < s.len() - 1 {
                assert(s[i] == less[i]);
            }
        }
    } else {
        assert(s.take(s.len() as int) =~= s);
    }
}

/// A trimmed text is what lies between the white space at both ends, and neither begins nor ends
/// with white space.
pub proof fn law_trimming_takes_the_white_space_off(s: &str, r: String)
    requires
        call_ensures(trim, (s,), r),
    ensures
        r@.len() > 0 ==> !is_white_space(r@[0]) && !is_white_space(r@.last()),
        exists|a: int|
            0 <= a <= s@.len() - r@.len() && #[trigger] s@.subrange(a, a + r@.len()) == r@ && (forall|
                i: int,
            |
                0 <= i < s@.len() && !(a <= i < a + r@.len()) ==> is_white_space(#[trigger] s@[i])),
{
    let l = drop_leading(s@, white());
    lemma_leading_dropped(s@, white());
    lemma_trailing_dropped(l, white());
    let a = s@.len() - l.len();
    assert(s@.subrange(a, a + r@.len()) =~= r@);
    assert forall|i: int| 0 <= i < s@.len() && !(a <= i < a + r@.len()) implies is_white_space(
        #[trigger] s@[i],
    ) by {
        if i < a {
            assert(white()(s@[i]));
        } else {
            assert(l[i - a] == s@[i]);
            assert(white()(l[i - a]));
        }
    }
    if r@.len() > 0 {
        assert(r@[0] == l[0]);
        assert(!white()(l[0]));
        assert(!white()(r@.last()));
    }
}

/// Only the character is taken off an end, and all of it.
pub proof fn law_character_is_taken_off_the_ends(s: &str, c: char, start: String, end: String)
    requires
        call_ensures(trim_start_char, (s, c), start),
        call_ensures(trim_end_char, (s, c), end),
    ensures
        start@.is_suffix_of(s@),
        start@.len() > 0 ==> start@[0] != c,
        forall|i: int| 0 <= i < s@.len() - start@.len() ==> #[trigger] s@[i] == c,
        end@.is_prefix_of(s@),
        end@.len() > 0 ==> end@.last() != c,
        forall|i: int| end@.len() <= i < s@.len() ==> #[trigger] s@[i] == c,
{
    lemma_leading_dropped(s@, only(c));
    lemma_trailing_dropped(s@, only(c));
    assert forall|i: int| 0 <= i < s@.len() - start@.len() implies #[trigger] s@[i] == c by {
        assert(only(c)(s@[i]));
    }
    assert forall|i: int| end@.len() <= i < s@.len() implies #[trigger] s@[i] == c by {
        assert(only(c)(s@[i]));
    }
    if start@.len() > 0 {
        assert(!only(c)(start@[0]));
    }
    if end@.len() > 0 {
        assert(!only(c)(end@.last()));
    }
    assert(s@.subrange(s@.len() - start@.len(), s@.len() as int) =~= start@);
    assert(s@.subrange(0, end@.len() as int) =~= end@);
}

/// A character that is replaced by another gives way to it everywhere, and the others stay.
pub proof fn lemma_character_replaced(s: Seq<char>, a: char, b: char)
    ensures
        replaced(s, seq![a], seq![b]).len() == s.len(),
        forall|i: int|
            0 <= i < s.len() ==> #[trigger] replaced(s, seq![a], seq![b])[i] == if s[i] == a {
                b
            } else {
                s[i]
            },
    decreases s.len(),
{
    if s.len() > 0 {
        let less = s.skip(1);
        lemma_character_replaced(less, a, b);
        let rest = replaced(less, seq![a], seq![b]);
        let r = replaced(s, seq![a], seq![b]);
        if s[0] == a {
            assert(s.subrange(0, 1) =~= seq![a]);
            assert(seq![a].is_prefix_of(s));
            assert(r =~= seq![b] + rest);
        } else {
            if seq![a].is_prefix_of(s) {
                assert(seq![a][0] == s[0]);
            }
            assert(r =~= seq![s[0]] + rest);
        }
        assert forall|i: int| 0 <= i < s.len() implies #[trigger] r[i] == if s[i] == a {
            b
        } else {
            s[i]
        } by {
            if i > 0 {
                assert(r[i] == rest[i - 1]);
                assert(s[i] == less[i - 1]);
            }
        }
    }
}

/// A text of one character that is replaced by another of one gives way to it everywhere, and the
/// rest stays.
pub proof fn law_replacement_is_everywhere(s: &str, pat: &str, with: &str, r: String)
    requires
        call_ensures(replace_text, (s, pat, with), r),
        pat@.len() == 1,
        with@.len() == 1,
    ensures
        r@.len() == s@.len(),
        forall|i: int|
            0 <= i < s@.len() ==> #[trigger] r@[i] == if s@[i] == pat@[0] {
                with@[0]
            } else {
                s@[i]
            },
{
    assert(pat@ =~= seq![pat@[0]]);
    assert(with@ =~= seq![with@[0]]);
    lemma_character_replaced(s@, pat@[0], with@[0]);
}

/// Lower case changes the capital letters only, each to the small letter.
pub proof fn law_capitals_become_small(s: &str, r: String)
    requires
        call_ensures(to_ascii_lower, (s,), r),
    ensures
        r@.len() == s@.len(),
        forall|i: int|
            0 <= i < s@.len() ==> #[trigger] r@[i] as int == if 'A' as int <= s@[i] as int
                && s@[i] as int <= 'Z' as int {
                s@[i] as int + ('a' as int - 'A' as int)
            } else {
                s@[i] as int
            },
{
}

/// A number that is written is read back where the limit allows it.
pub proof fn law_written_number_is_read_back(n: u64, limit: u64, t: String, u: &str, r: Option<u64>)
    requires
        call_ensures(to_decimal, (n,), t),
        u@ == t@,
        call_ensures(parse_unsigned, (u, limit), r),
        limit <= 0xffff_ffff,
    ensures
        r == if n <= limit {
            Some(n)
        } else {
            None
        },
{
    law_decimal_is_read_back(n as nat);
    lemma_decimal_digits(n as nat);
}

/// No line holds a line break.
pub proof fn law_lines_hold_no_break(s: &str, r: Vec<String>)
    requires
        call_ensures(lines, (s,), r),
    ensures
        forall|i: int| 0 <= i < r@.len() ==> !(#[trigger] r@[i])@.contains('\n'),
        s@.len() > 0 ==> r@.len() > 0,
{
    lemma_lines_hold_no_break(s@);
    assert forall|i: int| 0 <= i < r@.len() implies !(#[trigger] r@[i])@.contains('\n') by {
        assert(texts(r@)[i] == r@[i]@);
    }
    assert(texts(r@).len() == r@.len());
}

proof fn lemma_lines_hold_no_break(s: Seq<char>)
    ensures
        forall|i: int| 0 <= i < lines_of(s).len() ==> !(#[trigger] lines_of(s)[i]).contains('\n'),
        s.len() > 0 ==> lines_of(s).len() > 0,
    decreases s.len(),
{
    lemma_index_from(s, '\n', 0);
    let i = index_from(s, '\n', 0);
    if s.len() > 0 && i < s.len() {
        let rest = lines_of(s.skip(i + 1));
        lemma_lines_hold_no_break(s.skip(i + 1));
        let first = without_return(s.take(i));
        assert(lines_of(s) =~= seq![first] + rest);
        assert(!first.contains('\n')) by {
            if first.contains('\n') {
                let j = choose|j: int| 0 <= j < first.len() && first[j] == '\n';
                assert(s[j] == '\n');
            }
        }
        assert forall|k: int| 0 <= k < lines_of(s).len() implies !(#[trigger] lines_of(
            s,
        )[k]).contains('\n') by {
            if k > 0 {
                assert(lines_of(s)[k] == rest[k - 1]);
            }
        }
    }
}

/// A signed number that is written is read back.
pub proof fn law_signed_number_is_read_back(n: i64, t: String, u: &str, r: Option<i32>)
    requires
        call_ensures(to_decimal_signed, (n,), t),
        u@ == t@,
        call_ensures(parse_i32, (u,), r),
    ensures
        r is Some <==> i32::MIN <= n <= i32::MAX,
        r matches Some(m) ==> m == n,
{
    if n < 0 {
        let p = (-n) as nat;
        lemma_decimal_digits(p);
        assert(t@[0] == '-');
        assert(t@.skip(1) =~= decimal(p));
        assert(unsigned_part(t@) =~= decimal(p));
    } else {
        law_decimal_is_read_back(n as nat);
    }
}

} // verus!
