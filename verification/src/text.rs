//! Text as sequences of characters: reading, trimming and searching.
use vstd::prelude::*;

verus! {

// ---------------------------------------------------------------------------
// Sequences
// ---------------------------------------------------------------------------
/// What `f` makes of each item of `s`, one after the other.
pub open spec fn gather<A, B>(s: Seq<A>, f: spec_fn(A) -> Seq<B>) -> Seq<B>
    decreases s.len(),
{
    if s.len() == 0 {
        Seq::empty()
    } else {
        gather(s.drop_last(), f) + f(s.last())
    }
}

/// One more item adds what `f` makes of it at the end.
pub proof fn lemma_gather_step<A, B>(s: Seq<A>, n: int, f: spec_fn(A) -> Seq<B>)
    requires
        0 <= n < s.len(),
    ensures
        gather(s.take(n + 1), f) == gather(s.take(n), f) + f(s[n]),
{
    assert(s.take(n + 1).drop_last() =~= s.take(n));
    assert(s.take(n + 1).last() == s[n]);
}

/// Nothing gives nothing, and all of a sequence is the sequence.
pub proof fn lemma_gather_ends<A, B>(s: Seq<A>, f: spec_fn(A) -> Seq<B>)
    ensures
        gather(s.take(0), f) == Seq::<B>::empty(),
        s.take(s.len() as int) == s,
{
    assert(s.take(0).len() == 0);
    assert(s.take(s.len() as int) =~= s);
}

/// What the items of two sequences make, one after the other.
pub proof fn lemma_gather_concat<A, B>(s: Seq<A>, t: Seq<A>, f: spec_fn(A) -> Seq<B>)
    ensures
        gather(s + t, f) == gather(s, f) + gather(t, f),
    decreases t.len(),
{
    if t.len() == 0 {
        assert(s + t =~= s);
        assert(gather(s, f) + gather(t, f) =~= gather(s, f));
    } else {
        assert((s + t).drop_last() =~= s + t.drop_last());
        assert((s + t).last() == t.last());
        lemma_gather_concat(s, t.drop_last(), f);
        assert(gather(s, f) + gather(t.drop_last(), f) + f(t.last()) =~= gather(s, f) + (gather(
            t.drop_last(),
            f,
        ) + f(t.last())));
    }
}

/// Where a thing that one item makes stands among the things that all items make.
pub proof fn lemma_gather_at<A, B>(s: Seq<A>, f: spec_fn(A) -> Seq<B>, i: int, j: int) -> (n: int)
    requires
        0 <= i < s.len(),
        0 <= j < f(s[i]).len(),
    ensures
        0 <= n < gather(s, f).len(),
        gather(s, f)[n] == f(s[i])[j],
    decreases s.len(),
{
    let front = gather(s.drop_last(), f);
    if i == s.len() - 1 {
        front.len() + j
    } else {
        lemma_gather_at(s.drop_last(), f, i, j)
    }
}

/// Whatever all items make, some item makes.
pub proof fn lemma_gather_origin<A, B>(s: Seq<A>, f: spec_fn(A) -> Seq<B>, x: B) -> (i: int)
    requires
        gather(s, f).contains(x),
    ensures
        0 <= i < s.len(),
        f(s[i]).contains(x),
    decreases s.len(),
{
    let front = gather(s.drop_last(), f);
    let k = choose|k: int| 0 <= k < gather(s, f).len() && gather(s, f)[k] == x;
    if k < front.len() {
        assert(front[k] == x);
        lemma_gather_origin(s.drop_last(), f, x)
    } else {
        assert(f(s.last())[k - front.len()] == x);
        s.len() - 1
    }
}

/// The contents of several strings.
pub open spec fn texts(v: Seq<String>) -> Seq<Seq<char>> {
    Seq::new(v.len(), |i: int| v[i]@)
}

/// The contents of several string slices.
pub open spec fn strs(v: Seq<&str>) -> Seq<Seq<char>> {
    Seq::new(v.len(), |i: int| v[i]@)
}

/// The contents of a string that may be missing.
pub open spec fn opt_text(s: Option<String>) -> Option<Seq<char>> {
    match s {
        Some(s) => Some(s@),
        None => None,
    }
}

/// The contents of a string slice that may be missing.
pub open spec fn opt_str(s: Option<&str>) -> Option<Seq<char>> {
    match s {
        Some(s) => Some(s@),
        None => None,
    }
}

/// The string slice of a string that may be missing.
pub fn borrowed(s: &Option<String>) -> (r: Option<&str>)
    ensures
        opt_str(r) == opt_text(*s),
{
    match s {
        Some(s) => Some(s.as_str()),
        None => None,
    }
}

// ---------------------------------------------------------------------------
// Characters
// ---------------------------------------------------------------------------
/// The characters with the Unicode property White_Space.
pub open spec fn is_space(c: char) -> bool {
    let n = c as int;
    ||| 0x9 <= n <= 0xd
    ||| n == 0x20
    ||| n == 0x85
    ||| n == 0xa0
    ||| n == 0x1680
    ||| 0x2000 <= n <= 0x200a
    ||| n == 0x2028
    ||| n == 0x2029
    ||| n == 0x202f
    ||| n == 0x205f
    ||| n == 0x3000
}

/// True for the characters with the Unicode property White_Space.
pub fn is_whitespace(c: char) -> (r: bool)
    ensures
        r == is_space(c),
{
    let n: u32 = c as u32;
    (0x9 <= n && n <= 0xd) || n == 0x20 || n == 0x85 || n == 0xa0 || n == 0x1680 || (0x2000 <= n
        && n <= 0x200a) || n == 0x2028 || n == 0x2029 || n == 0x202f || n == 0x205f || n == 0x3000
}

pub open spec fn is_lower_ascii(c: char) -> bool {
    'a' <= c <= 'z'
}

pub open spec fn is_upper_ascii(c: char) -> bool {
    'A' <= c <= 'Z'
}

pub open spec fn is_digit(c: char) -> bool {
    '0' <= c <= '9'
}

/// A letter or a digit of ASCII.
pub open spec fn is_ascii_alnum(c: char) -> bool {
    is_lower_ascii(c) || is_upper_ascii(c) || is_digit(c)
}

/// A capital letter of ASCII as its small letter; any other character as it is.
pub open spec fn ascii_lower(c: char) -> char {
    if is_upper_ascii(c) {
        (c as u32 + 32) as char
    } else {
        c
    }
}

pub open spec fn ascii_lowered(s: Seq<char>) -> Seq<char> {
    Seq::new(s.len(), |i: int| ascii_lower(s[i]))
}

// ---------------------------------------------------------------------------
// Reading strings
// ---------------------------------------------------------------------------
/// The characters of a string, one by one.
pub fn chars_of(s: &str) -> (r: Vec<char>)
    ensures
        r@ == s@,
{
    let mut out: Vec<char> = Vec::new();
    for c in it: s.chars()
        invariant
            it.seq() == s@,
            out@ == s@.take(it.index()),
    {
        out.push(c);
        assert(s@.take(it.index() + 1) =~= s@.take(it.index()).push(c));
    }
    assert(s@.take(s@.len() as int) =~= s@);
    out
}

/// True if both strings hold the same characters.
pub fn str_eq(a: &str, b: &str) -> (r: bool)
    ensures
        r == (a@ == b@),
{
    let x = chars_of(a);
    let y = chars_of(b);
    if x.len() != y.len() {
        return false;
    }
    for i in 0..x.len()
        invariant
            x@ == a@,
            y@ == b@,
            x@.len() == y@.len(),
            forall|k: int| 0 <= k < i ==> x@[k] == y@[k],
    {
        if x[i] != y[i] {
            return false;
        }
    }
    assert(a@ =~= b@);
    true
}

/// True if both strings are the same but for the case of ASCII letters.
pub fn eq_ignore_ascii_case(a: &str, b: &str) -> (r: bool)
    ensures
        r == (ascii_lowered(a@) == ascii_lowered(b@)),
{
    let x = chars_of(a);
    let y = chars_of(b);
    if x.len() != y.len() {
        assert(ascii_lowered(a@).len() != ascii_lowered(b@).len());
        return false;
    }
    for i in 0..x.len()
        invariant
            x@ == a@,
            y@ == b@,
            x@.len() == y@.len(),
            forall|k: int| 0 <= k < i ==> ascii_lower(x@[k]) == ascii_lower(y@[k]),
    {
        if to_ascii_lower(x[i]) != to_ascii_lower(y[i]) {
            assert(ascii_lowered(a@)[i as int] != ascii_lowered(b@)[i as int]);
            return false;
        }
    }
    assert(ascii_lowered(a@) =~= ascii_lowered(b@));
    true
}

/// A capital letter of ASCII as its small letter; any other character as it is.
pub fn to_ascii_lower(c: char) -> (r: char)
    ensures
        r == ascii_lower(c),
{
    if 'A' <= c && c <= 'Z' {
        ((c as u8) + 32) as char
    } else {
        c
    }
}

// ---------------------------------------------------------------------------
// Trimming
// ---------------------------------------------------------------------------
/// `s` without the characters at its start that meet `p`.
pub open spec fn drop_leading(s: Seq<char>, p: spec_fn(char) -> bool) -> Seq<char>
    decreases s.len(),
{
    if s.len() > 0 && p(s[0]) {
        drop_leading(s.skip(1), p)
    } else {
        s
    }
}

/// `s` without the characters at its end that meet `p`.
pub open spec fn drop_trailing(s: Seq<char>, p: spec_fn(char) -> bool) -> Seq<char>
    decreases s.len(),
{
    if s.len() > 0 && p(s.last()) {
        drop_trailing(s.drop_last(), p)
    } else {
        s
    }
}

/// `s` without the characters at either end that meet `p`.
pub open spec fn strip_ends(s: Seq<char>, p: spec_fn(char) -> bool) -> Seq<char> {
    drop_trailing(drop_leading(s, p), p)
}

pub open spec fn spaces() -> spec_fn(char) -> bool {
    |c: char| is_space(c)
}

/// `s` without white space at either end.
pub open spec fn trimmed(s: Seq<char>) -> Seq<char> {
    strip_ends(s, spaces())
}

/// The part of `chars` that is left without the characters at either end that meet `p`.
pub(crate) fn strip_span<F: Fn(char) -> bool>(
    chars: &Vec<char>,
    drop: F,
    Ghost(p): Ghost<spec_fn(char) -> bool>,
) -> (r: (usize, usize))
    requires
        forall|c: char| call_requires(drop, (c,)),
        forall|c: char, b: bool| call_ensures(drop, (c,), b) ==> b == p(c),
    ensures
        r.0 <= r.1 <= chars@.len(),
        chars@.subrange(r.0 as int, r.1 as int) == strip_ends(chars@, p),
{
    let mut start: usize = 0;
    assert(chars@.skip(0) =~= chars@);
    while start < chars.len() && drop(chars[start])
        invariant
            forall|c: char| call_requires(drop, (c,)),
            forall|c: char, b: bool| call_ensures(drop, (c,), b) ==> b == p(c),
            start <= chars@.len(),
            drop_leading(chars@, p) == drop_leading(chars@.skip(start as int), p),
        ensures
            start <= chars@.len(),
            drop_leading(chars@, p) == chars@.skip(start as int),
        decreases chars@.len() - start,
    {
        assert(chars@.skip(start as int).skip(1) =~= chars@.skip(start + 1));
        start = start + 1;
    }
    let mut end: usize = chars.len();
    assert(chars@.subrange(start as int, end as int) =~= chars@.skip(start as int));
    while end > start && drop(chars[end - 1])
        invariant
            forall|c: char| call_requires(drop, (c,)),
            forall|c: char, b: bool| call_ensures(drop, (c,), b) ==> b == p(c),
            start <= end <= chars@.len(),
            strip_ends(chars@, p) == drop_trailing(
                chars@.subrange(start as int, end as int),
                p,
            ),
        ensures
            start <= end <= chars@.len(),
            strip_ends(chars@, p) == chars@.subrange(start as int, end as int),
        decreases end - start,
    {
        assert(chars@.subrange(start as int, end as int).drop_last() =~= chars@.subrange(
            start as int,
            end - 1,
        ));
        end = end - 1;
    }
    (start, end)
}

/// `s` without white space at either end.
pub fn trim(s: &str) -> (r: &str)
    ensures
        r@ == trimmed(s@),
{
    let chars = chars_of(s);
    let (start, end) = strip_span(&chars, is_whitespace, Ghost(spaces()));
    s.substring_char(start, end)
}

// ---------------------------------------------------------------------------
// Searching
// ---------------------------------------------------------------------------
/// Where the first item that meets `p` stands; the length of `s` if there is none.
pub open spec fn first_index<A>(s: Seq<A>, p: spec_fn(A) -> bool) -> int
    decreases s.len(),
{
    if s.len() == 0 || p(s[0]) {
        0
    } else {
        1 + first_index(s.skip(1), p)
    }
}

pub open spec fn is_char(x: char) -> spec_fn(char) -> bool {
    |c: char| c == x
}

/// The first index is the first: what stands there meets `p`, and nothing before it does.
pub proof fn lemma_first_index<A>(s: Seq<A>, p: spec_fn(A) -> bool)
    ensures
        0 <= first_index(s, p) <= s.len(),
        first_index(s, p) < s.len() ==> p(s[first_index(s, p)]),
        forall|i: int| 0 <= i < first_index(s, p) ==> !p(#[trigger] s[i]),
    decreases s.len(),
{
    if s.len() > 0 && !p(s[0]) {
        lemma_first_index(s.skip(1), p);
        assert forall|i: int| 0 <= i < first_index(s, p) implies !p(#[trigger] s[i]) by {
            if i > 0 {
                assert(s[i] == s.skip(1)[i - 1]);
            }
        }
    }
}

/// Whatever meets `p` first stands at the first index.
pub proof fn lemma_is_first_index<A>(s: Seq<A>, p: spec_fn(A) -> bool, n: int)
    requires
        0 <= n <= s.len(),
        forall|i: int| 0 <= i < n ==> !p(#[trigger] s[i]),
        n < s.len() ==> p(s[n]),
    ensures
        first_index(s, p) == n,
{
    lemma_first_index(s, p);
    let m = first_index(s, p);
    if m < n {
        assert(!p(s[m]));
    } else if n < m {
        assert(!p(s[n]));
    }
}

/// The first place at or behind `from` whose character meets `p`.
pub(crate) fn find_from<F: Fn(char) -> bool>(
    chars: &Vec<char>,
    from: usize,
    test: F,
    Ghost(p): Ghost<spec_fn(char) -> bool>,
) -> (r: usize)
    requires
        from <= chars@.len(),
        forall|c: char| call_requires(test, (c,)),
        forall|c: char, b: bool| call_ensures(test, (c,), b) ==> b == p(c),
    ensures
        from <= r <= chars@.len(),
        r == from + first_index(chars@.skip(from as int), p),
{
    let mut i: usize = from;
    while i < chars.len() && !test(chars[i])
        invariant
            forall|c: char| call_requires(test, (c,)),
            forall|c: char, b: bool| call_ensures(test, (c,), b) ==> b == p(c),
            from <= i <= chars@.len(),
            from + first_index(chars@.skip(from as int), p) == i + first_index(
                chars@.skip(i as int),
                p,
            ),
        ensures
            from <= i <= chars@.len(),
            from + first_index(chars@.skip(from as int), p) == i,
        decreases chars@.len() - i,
    {
        assert(chars@.skip(i as int).skip(1) =~= chars@.skip(i + 1));
        i = i + 1;
    }
    i
}

/// True if `x` occurs in `s`.
pub fn contains_char(s: &str, x: char) -> (r: bool)
    ensures
        r == s@.contains(x),
{
    let chars = chars_of(s);
    for i in 0..chars.len()
        invariant
            chars@ == s@,
            forall|k: int| 0 <= k < i ==> s@[k] != x,
    {
        if chars[i] == x {
            return true;
        }
    }
    false
}

/// True if `v` holds the text `x`.
pub fn holds_text(v: &Vec<String>, x: &str) -> (r: bool)
    ensures
        r == texts(v@).contains(x@),
{
    for i in 0..v.len()
        invariant
            forall|k: int| 0 <= k < i ==> (#[trigger] v@[k])@ != x@,
    {
        if str_eq(v[i].as_str(), x) {
            assert(texts(v@)[i as int] == x@);
            return true;
        }
    }
    assert(!texts(v@).contains(x@)) by {
        if texts(v@).contains(x@) {
            let k = choose|k: int| 0 <= k < texts(v@).len() && texts(v@)[k] == x@;
            assert(v@[k]@ == x@);
        }
    }
    false
}

/// `part` stands in `s` at the place `at`.
pub open spec fn occurs_at(s: Seq<char>, part: Seq<char>, at: int) -> bool {
    0 <= at && at + part.len() <= s.len() && s.subrange(at, at + part.len()) == part
}

/// `part` stands somewhere in `s`.
pub open spec fn occurs_in(s: Seq<char>, part: Seq<char>) -> bool {
    exists|at: int| #[trigger] occurs_at(s, part, at)
}

/// True if `part` stands in `s` at the place `at`.
pub fn matches_at(s: &Vec<char>, part: &Vec<char>, at: usize) -> (r: bool)
    ensures
        r == occurs_at(s@, part@, at as int),
{
    if at > s.len() || s.len() - at < part.len() {
        return false;
    }
    for i in 0..part.len()
        invariant
            at + part@.len() <= s.len(),
            forall|k: int| 0 <= k < i ==> s@[at + k] == part@[k],
    {
        if s[at + i] != part[i] {
            assert(s@.subrange(at as int, at + part@.len())[i as int] != part@[i as int]);
            return false;
        }
    }
    assert(s@.subrange(at as int, at + part@.len()) =~= part@);
    true
}

/// True if `part` stands somewhere in `s`.
pub fn contains_str(s: &str, part: &str) -> (r: bool)
    ensures
        r == occurs_in(s@, part@),
{
    let chars = chars_of(s);
    let wanted = chars_of(part);
    let mut i: usize = 0;
    while i <= chars.len()
        invariant
            chars@ == s@,
            wanted@ == part@,
            i <= chars@.len() + 1,
            forall|at: int| 0 <= at < i ==> !#[trigger] occurs_at(s@, part@, at),
        decreases chars@.len() + 1 - i,
    {
        if matches_at(&chars, &wanted, i) {
            return true;
        }
        if i == chars.len() {
            assert forall|at: int| !#[trigger] occurs_at(s@, part@, at) by {}
            return false;
        }
        i = i + 1;
    }
    false
}

/// `s` begins with `prefix`.
pub open spec fn begins_with(s: Seq<char>, prefix: Seq<char>) -> bool {
    prefix.len() <= s.len() && s.take(prefix.len() as int) == prefix
}

/// `s` ends with `suffix`.
pub open spec fn ends_in(s: Seq<char>, suffix: Seq<char>) -> bool {
    suffix.len() <= s.len() && s.skip(s.len() - suffix.len()) == suffix
}

/// True if `s` begins with `prefix`.
pub fn starts_with(s: &str, prefix: &str) -> (r: bool)
    ensures
        r == begins_with(s@, prefix@),
{
    let chars = chars_of(s);
    let wanted = chars_of(prefix);
    assert(prefix@.len() <= s@.len() ==> s@.subrange(0, prefix@.len() as int) =~= s@.take(
        prefix@.len() as int,
    ));
    matches_at(&chars, &wanted, 0)
}

/// True if `s` ends with `suffix`.
pub fn ends_with(s: &str, suffix: &str) -> (r: bool)
    ensures
        r == ends_in(s@, suffix@),
{
    let chars = chars_of(s);
    let wanted = chars_of(suffix);
    if wanted.len() > chars.len() {
        return false;
    }
    let at: usize = chars.len() - wanted.len();
    assert(s@.subrange(at as int, at + suffix@.len()) =~= s@.skip(at as int));
    matches_at(&chars, &wanted, at)
}

/// What is left of `s` behind `prefix`, if `s` begins with it.
pub open spec fn behind(s: Seq<char>, prefix: Seq<char>) -> Option<Seq<char>> {
    if begins_with(s, prefix) {
        Some(s.skip(prefix.len() as int))
    } else {
        None
    }
}

/// What is left of `s` behind `prefix`, if `s` begins with it.
pub fn strip_prefix<'a>(s: &'a str, prefix: &str) -> (r: Option<&'a str>)
    ensures
        match r {
            Some(rest) => behind(s@, prefix@) == Some(rest@),
            None => behind(s@, prefix@) is None,
        },
{
    if starts_with(s, prefix) {
        let n: usize = prefix.unicode_len();
        let m: usize = s.unicode_len();
        assert(s@.subrange(n as int, m as int) =~= s@.skip(n as int));
        Some(s.substring_char(n, m))
    } else {
        None
    }
}

// ---------------------------------------------------------------------------
// What stands in a text
// ---------------------------------------------------------------------------
/// What stands in a part of a text stands in the text.
pub proof fn lemma_occurs_between(a: Seq<char>, b: Seq<char>, c: Seq<char>, part: Seq<char>)
    requires
        occurs_in(b, part),
    ensures
        occurs_in(a + b + c, part),
{
    let at = choose|at: int| #[trigger] occurs_at(b, part, at);
    let s = a + b + c;
    let n = a.len() + at;
    assert(s.subrange(n, n + part.len()) =~= b.subrange(at, at + part.len()));
    assert(occurs_at(s, part, n));
}

/// A text stands in itself.
pub proof fn lemma_occurs_whole(s: Seq<char>)
    ensures
        occurs_in(s, s),
{
    assert(s.subrange(0, s.len() as int) =~= s);
    assert(occurs_at(s, s, 0));
}

/// What stands in the text that one item makes stands in the text that all items make.
pub proof fn lemma_occurs_in_gather<A>(
    s: Seq<A>,
    f: spec_fn(A) -> Seq<char>,
    i: int,
    part: Seq<char>,
)
    requires
        0 <= i < s.len(),
        occurs_in(f(s[i]), part),
    ensures
        occurs_in(gather(s, f), part),
    decreases s.len(),
{
    let front = gather(s.drop_last(), f);
    let last = f(s.last());
    let none = Seq::<char>::empty();
    if i == s.len() - 1 {
        lemma_occurs_between(front, last, none, part);
        assert(front + last + none =~= gather(s, f));
    } else {
        lemma_occurs_in_gather(s.drop_last(), f, i, part);
        lemma_occurs_between(none, front, last, part);
        assert(none + front + last =~= gather(s, f));
    }
}

/// Dropping what leads leaves the end of the text.
pub proof fn lemma_drop_leading(s: Seq<char>, p: spec_fn(char) -> bool)
    ensures
        drop_leading(s, p).len() <= s.len(),
        drop_leading(s, p) == s.skip(s.len() - drop_leading(s, p).len()),
        drop_leading(s, p).len() > 0 ==> !p(drop_leading(s, p)[0]),
    decreases s.len(),
{
    if s.len() > 0 && p(s[0]) {
        lemma_drop_leading(s.skip(1), p);
        assert(s.skip(1).skip(s.len() - 1 - drop_leading(s, p).len()) =~= s.skip(
            s.len() - drop_leading(s, p).len(),
        ));
    } else {
        assert(s.skip(0) =~= s);
    }
}

/// Dropping what trails leaves the start of the text.
pub proof fn lemma_drop_trailing(s: Seq<char>, p: spec_fn(char) -> bool)
    ensures
        drop_trailing(s, p).len() <= s.len(),
        drop_trailing(s, p) == s.take(drop_trailing(s, p).len() as int),
        drop_trailing(s, p).len() > 0 ==> !p(drop_trailing(s, p).last()),
    decreases s.len(),
{
    if s.len() > 0 && p(s.last()) {
        lemma_drop_trailing(s.drop_last(), p);
        assert(s.drop_last().take(drop_trailing(s, p).len() as int) =~= s.take(
            drop_trailing(s, p).len() as int,
        ));
    } else {
        assert(s.take(s.len() as int) =~= s);
    }
}

/// Trimming once is enough.
pub proof fn law_trimming_is_idempotent(s: Seq<char>)
    ensures
        trimmed(trimmed(s)) == trimmed(s),
{
    let t = drop_leading(s, spaces());
    let u = trimmed(s);
    lemma_drop_leading(s, spaces());
    lemma_drop_trailing(t, spaces());
    if u.len() > 0 {
        assert(u[0] == t[0]);
        assert(drop_leading(u, spaces()) == u);
        assert(drop_trailing(u, spaces()) == u);
    }
}

/// A text that does not begin with white space is not blank.
pub proof fn lemma_trimmed_keeps_the_start(s: Seq<char>)
    requires
        s.len() > 0,
        !is_space(s[0]),
    ensures
        trimmed(s).len() > 0,
    decreases s.len(),
{
    if s.len() > 1 && is_space(s.last()) {
        lemma_trimmed_keeps_the_start(s.drop_last());
    }
}

/// All characters are white space.
pub open spec fn is_blank(s: Seq<char>) -> bool {
    forall|i: int| 0 <= i < s.len() ==> is_space(#[trigger] s[i])
}

proof fn lemma_drop_leading_blank(blank: Seq<char>, s: Seq<char>)
    requires
        is_blank(blank),
    ensures
        drop_leading(blank + s, spaces()) == drop_leading(s, spaces()),
    decreases blank.len(),
{
    if blank.len() == 0 {
        assert(blank + s =~= s);
    } else {
        assert((blank + s)[0] == blank[0]);
        assert((blank + s).skip(1) =~= blank.skip(1) + s);
        lemma_drop_leading_blank(blank.skip(1), s);
    }
}

proof fn lemma_drop_trailing_blank(s: Seq<char>, blank: Seq<char>)
    requires
        is_blank(blank),
    ensures
        drop_trailing(s + blank, spaces()) == drop_trailing(s, spaces()),
    decreases blank.len(),
{
    if blank.len() == 0 {
        assert(s + blank =~= s);
    } else {
        assert((s + blank).last() == blank[blank.len() - 1]);
        assert((s + blank).drop_last() =~= s + blank.drop_last());
        lemma_drop_trailing_blank(s, blank.drop_last());
    }
}

proof fn lemma_drop_leading_before_blank(s: Seq<char>, blank: Seq<char>)
    requires
        is_blank(blank),
    ensures
        drop_trailing(drop_leading(s + blank, spaces()), spaces()) == trimmed(s),
    decreases s.len(),
{
    if s.len() == 0 {
        assert(s + blank =~= blank + s);
        lemma_drop_leading_blank(blank, s);
    } else if is_space(s[0]) {
        assert((s + blank).skip(1) =~= s.skip(1) + blank);
        lemma_drop_leading_before_blank(s.skip(1), blank);
    } else {
        lemma_drop_trailing_blank(s, blank);
    }
}

/// White space in front of a text and behind it is trimmed away.
pub proof fn law_surrounding_space_is_trimmed(front: Seq<char>, s: Seq<char>, back: Seq<char>)
    requires
        is_blank(front),
        is_blank(back),
    ensures
        trimmed(front + s + back) == trimmed(s),
{
    assert(front + s + back =~= front + (s + back));
    lemma_drop_leading_blank(front, s + back);
    lemma_drop_leading_before_blank(s, back);
}

/// Stripping the ends leaves a run of the text: what is cut off on either side meets `p`, and what
/// is left neither begins nor ends with a character that does.
pub proof fn law_stripping_cuts_the_ends_only(s: Seq<char>, p: spec_fn(char) -> bool) -> (r: (
    int,
    int,
))
    ensures
        0 <= r.0 <= r.1 <= s.len(),
        strip_ends(s, p) == s.subrange(r.0, r.1),
        forall|i: int| 0 <= i < r.0 ==> p(#[trigger] s[i]),
        forall|i: int| r.1 <= i < s.len() ==> p(#[trigger] s[i]),
        r.0 < r.1 ==> !p(s[r.0]) && !p(s[r.1 - 1]),
{
    let t = drop_leading(s, p);
    let u = strip_ends(s, p);
    lemma_drop_leading(s, p);
    lemma_drop_trailing(t, p);
    lemma_dropped_front(s, p);
    lemma_dropped_back(t, p);
    let a = s.len() - t.len();
    let b = a + u.len();
    assert(u =~= s.subrange(a, b));
    assert forall|i: int| b <= i < s.len() implies p(#[trigger] s[i]) by {
        assert(t[i - a] == s[i]);
    }
    if a < b {
        assert(u[0] == s[a] && t[0] == s[a]);
        assert(u.last() == s[b - 1]);
    }
    (a, b)
}

proof fn lemma_dropped_front(s: Seq<char>, p: spec_fn(char) -> bool)
    ensures
        forall|i: int| 0 <= i < s.len() - drop_leading(s, p).len() ==> p(#[trigger] s[i]),
    decreases s.len(),
{
    if s.len() > 0 && p(s[0]) {
        lemma_drop_leading(s.skip(1), p);
        lemma_dropped_front(s.skip(1), p);
        assert forall|i: int| 0 <= i < s.len() - drop_leading(s, p).len() implies p(
            #[trigger] s[i],
        ) by {
            if i > 0 {
                assert(s.skip(1)[i - 1] == s[i]);
            }
        }
    }
}

proof fn lemma_dropped_back(s: Seq<char>, p: spec_fn(char) -> bool)
    ensures
        forall|i: int| drop_trailing(s, p).len() <= i < s.len() ==> p(#[trigger] s[i]),
    decreases s.len(),
{
    if s.len() > 0 && p(s.last()) {
        lemma_drop_trailing(s.drop_last(), p);
        lemma_dropped_back(s.drop_last(), p);
        assert forall|i: int| drop_trailing(s, p).len() <= i < s.len() implies p(
            #[trigger] s[i],
        ) by {
            if i < s.len() - 1 {
                assert(s.drop_last()[i] == s[i]);
            }
        }
    }
}

/// Trimming leaves a run of the text: what is cut off on either side is white space, and what is
/// left neither begins nor ends with white space.
pub proof fn law_trimming_cuts_white_space_only(s: Seq<char>) -> (r: (int, int))
    ensures
        0 <= r.0 <= r.1 <= s.len(),
        trimmed(s) == s.subrange(r.0, r.1),
        is_blank(s.subrange(0, r.0)),
        is_blank(s.subrange(r.1, s.len() as int)),
        r.0 < r.1 ==> !is_space(s[r.0]) && !is_space(s[r.1 - 1]),
{
    let r = law_stripping_cuts_the_ends_only(s, spaces());
    assert forall|i: int| 0 <= i < r.0 implies is_space(#[trigger] s.subrange(0, r.0)[i]) by {
        assert(spaces()(s[i]));
    }
    assert forall|i: int| 0 <= i < s.len() - r.1 implies is_space(
        #[trigger] s.subrange(r.1, s.len() as int)[i],
    ) by {
        assert(spaces()(s[r.1 + i]));
    }
    if r.0 < r.1 {
        assert(!spaces()(s[r.0]) && !spaces()(s[r.1 - 1]));
    }
    r
}

/// Nothing is left of a text exactly if it is white space throughout.
pub proof fn law_blank_texts_are_trimmed_away(s: Seq<char>)
    ensures
        trimmed(s).len() == 0 <==> is_blank(s),
{
    let r = law_trimming_cuts_white_space_only(s);
    if is_blank(s) && r.0 < r.1 {
        assert(is_space(s[r.0]));
    }
    if trimmed(s).len() == 0 {
        assert forall|i: int| 0 <= i < s.len() implies is_space(#[trigger] s[i]) by {
            if i < r.0 {
                assert(s.subrange(0, r.0)[i] == s[i]);
            } else {
                assert(s.subrange(r.1, s.len() as int)[i - r.1] == s[i]);
            }
        }
    }
}

/// A part stands in a text exactly if the text is something, the part, and something.
pub proof fn law_parts_stand_between(a: Seq<char>, part: Seq<char>, b: Seq<char>)
    ensures
        occurs_in(a + part + b, part),
{
    lemma_occurs_whole(part);
    lemma_occurs_between(a, part, b, part);
}

/// What stands in a text can be cut out of it.
pub proof fn law_parts_can_be_cut_out(s: Seq<char>, part: Seq<char>) -> (r: (
    Seq<char>,
    Seq<char>,
))
    requires
        occurs_in(s, part),
    ensures
        s == r.0 + part + r.1,
{
    let at = choose|at: int| #[trigger] occurs_at(s, part, at);
    let a = s.take(at);
    let b = s.skip(at + part.len());
    assert forall|i: int| 0 <= i < part.len() implies s[at + i] == #[trigger] part[i] by {
        assert(s.subrange(at, at + part.len())[i] == part[i]);
    }
    assert(s =~= a + part + b);
    (a, b)
}

/// A text begins with a prefix exactly if it is the prefix and a rest, and the rest is what is
/// left behind it.
pub proof fn law_prefix_and_rest(s: Seq<char>, prefix: Seq<char>, rest: Seq<char>)
    ensures
        begins_with(prefix + rest, prefix),
        behind(prefix + rest, prefix) == Some(rest),
        begins_with(s, prefix) ==> s == prefix + s.skip(prefix.len() as int),
        behind(s, prefix) is Some <==> begins_with(s, prefix),
{
    assert((prefix + rest).take(prefix.len() as int) =~= prefix);
    assert((prefix + rest).skip(prefix.len() as int) =~= rest);
    if begins_with(s, prefix) {
        assert(s =~= s.take(prefix.len() as int) + s.skip(prefix.len() as int));
    }
}

/// A text ends with a suffix exactly if it is a rest and the suffix.
pub proof fn law_rest_and_suffix(s: Seq<char>, rest: Seq<char>, suffix: Seq<char>)
    ensures
        ends_in(rest + suffix, suffix),
        ends_in(s, suffix) ==> s == s.take(s.len() - suffix.len()) + suffix,
{
    assert((rest + suffix).skip(rest.len() as int) =~= suffix);
    if ends_in(s, suffix) {
        assert(s =~= s.take(s.len() - suffix.len()) + s.skip(s.len() - suffix.len()));
    }
}

/// Where each item makes one thing or nothing, all items make those things, in order.
pub proof fn lemma_gather_is_filter<A, B>(
    s: Seq<A>,
    f: spec_fn(A) -> Seq<B>,
    p: spec_fn(A) -> bool,
    m: spec_fn(A) -> B,
)
    requires
        forall|x: A| #[trigger]
            f(x) == if p(x) {
                seq![m(x)]
            } else {
                Seq::<B>::empty()
            },
    ensures
        gather(s, f) == s.filter(p).map_values(m),
    decreases s.len(),
{
    reveal(Seq::filter);
    if s.len() > 0 {
        lemma_gather_is_filter(s.drop_last(), f, p, m);
        let x = s.last();
        let before = s.drop_last().filter(p);
        assert(f(x) == if p(x) {
            seq![m(x)]
        } else {
            Seq::<B>::empty()
        });
        if p(x) {
            assert(before.push(x).map_values(m) =~= before.map_values(m) + seq![m(x)]);
        } else {
            assert(before.map_values(m) + Seq::<B>::empty() =~= before.map_values(m));
        }
    } else {
        assert(gather(s, f) =~= s.filter(p).map_values(m));
    }
}

/// Nothing makes nothing, one item makes what it makes, and two runs of items make what each of
/// them makes, one after the other.
pub proof fn law_gathering<A, B>(a: Seq<A>, x: A, b: Seq<A>, f: spec_fn(A) -> Seq<B>)
    ensures
        gather(Seq::<A>::empty(), f) == Seq::<B>::empty(),
        gather(seq![x], f) == f(x),
        gather(a + b, f) == gather(a, f) + gather(b, f),
{
    reveal_with_fuel(gather, 2);
    assert(seq![x].drop_last() =~= Seq::empty());
    assert(gather(seq![x], f) =~= f(x));
    lemma_gather_concat(a, b, f);
}

/// White space is a tab, a line feed, a carriage return, a space and their kin up to the
/// ideographic space; no letter, digit or other visible character of ASCII is.
pub proof fn law_which_characters_are_white_space(c: char)
    ensures
        c == ' ' || c == '\t' || c == '\n' || c == '\r' || c == '\u{0b}' || c == '\u{0c}' ==> is_space(
            c,
        ),
        c == '\u{85}' || c == '\u{a0}' || c == '\u{1680}' || c == '\u{2028}' || c == '\u{2029}' || c
            == '\u{202f}' || c == '\u{205f}' || c == '\u{3000}' ==> is_space(c),
        '\u{2000}' <= c <= '\u{200a}' ==> is_space(c),
        '!' <= c <= '~' ==> !is_space(c),
        c > '\u{3000}' ==> !is_space(c),
{
}

/// Small letters are the capital ones moved by their distance in ASCII; lowering a text lowers each
/// of its characters, and nothing that is no capital letter is changed.
pub proof fn law_lowering_moves_capital_letters(s: Seq<char>, i: int)
    requires
        0 <= i < s.len(),
    ensures
        ascii_lowered(s).len() == s.len(),
        'A' <= s[i] <= 'Z' ==> ascii_lowered(s)[i] as int == s[i] as int + 32,
        s[i] < 'A' || s[i] > 'Z' ==> ascii_lowered(s)[i] == s[i],
{
}

/// Letters and digits of ASCII, by their ranges.
pub proof fn law_letters_and_digits_of_ascii(c: char, x: char)
    ensures
        is_lower_ascii(c) <==> 'a' <= c && c <= 'z',
        is_upper_ascii(c) <==> 'A' <= c && c <= 'Z',
        is_digit(c) <==> '0' <= c && c <= '9',
        is_ascii_alnum(c) <==> ('a' <= c && c <= 'z') || ('A' <= c && c <= 'Z') || ('0' <= c && c
            <= '9'),
        is_char(x)(c) <==> c == x,
{
}

/// Texts are seen as they are, in their places; what is missing stays missing.
pub proof fn law_texts_keep_their_places(owned: Seq<String>, borrowed: Seq<&str>, i: int)
    ensures
        texts(owned).len() == owned.len(),
        strs(borrowed).len() == borrowed.len(),
        0 <= i < owned.len() ==> texts(owned)[i] == owned[i]@,
        0 <= i < borrowed.len() ==> strs(borrowed)[i] == borrowed[i]@,
        0 <= i < owned.len() ==> opt_text(Some(owned[i])) == Some(owned[i]@),
        0 <= i < borrowed.len() ==> opt_str(Some(borrowed[i])) == Some(borrowed[i]@),
        opt_text(None) is None,
        opt_str(None) is None,
{
}

} // verus!
