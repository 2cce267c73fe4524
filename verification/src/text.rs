//! Text as a sequence of characters: trimming, searching, splitting and
//! rendering, each stated over the characters a string holds.

use vstd::prelude::*;

verus! {

/// `String::push` appends one character at the end of the string.
pub assume_specification[ String::push ](s: &mut String, c: char)
    ensures
        final(s)@ == old(s)@.push(c),
;

// ---------------------------------------------------------------------------
// Character classes
// ---------------------------------------------------------------------------

/// The characters with the Unicode `White_Space` property.
pub open spec fn is_white(c: char) -> bool {
    let n = c as int;
    ||| 0x09 <= n <= 0x0d
    ||| n == 0x20
    ||| n == 0x85
    ||| n == 0xa0
    ||| n == 0x1680
    ||| 0x2000 <= n <= 0x200a
    ||| n == 0x2028
    ||| n == 0x2029
    ||| n == 0x202f
    ||| n == 0x205f
    ||| n == 0x3000
}

/// Whether a character is white space.
pub fn is_whitespace(c: char) -> (r: bool)
    ensures
        r == is_white(c),
{
    let n: u32 = c as u32;
    (0x09 <= n && n <= 0x0d) || n == 0x20 || n == 0x85 || n == 0xa0 || n == 0x1680 || (0x2000 <= n
        && n <= 0x200a) || n == 0x2028 || n == 0x2029 || n == 0x202f || n == 0x205f || n == 0x3000
}

/// The characters that a trim takes away.
#[derive(Clone, Copy)]
pub enum CharClass {
    /// White space.
    White,
    /// One given character.
    Just(char),
}

impl CharClass {
    /// Whether a character belongs to the class.
    pub open spec fn holds(self, c: char) -> bool {
        match self {
            CharClass::White => is_white(c),
            CharClass::Just(d) => c == d,
        }
    }

    /// Whether a character belongs to the class.
    pub fn has(&self, c: char) -> (r: bool)
        ensures
            r == self.holds(c),
    {
        match self {
            CharClass::White => is_whitespace(c),
            CharClass::Just(d) => c == *d,
        }
    }
}

// ---------------------------------------------------------------------------
// Between strings and characters
// ---------------------------------------------------------------------------

/// The characters of a string, in order.
pub fn to_chars(s: &str) -> (chars: Vec<char>)
    ensures
        chars@ == s@,
{
    let mut chars: Vec<char> = Vec::new();
    for c in it: s.chars()
        invariant
            chars@ == s@.take(it.index()),
            it.seq() == s@,
    {
        chars.push(c);
        assert(s@.take(it.index()).push(c) == s@.take(it.index() + 1));
    }
    assert(s@.take(s@.len() as int) == s@);
    chars
}

/// The string made of the characters `from..to` of `chars`.
pub fn from_chars(chars: &Vec<char>, from: usize, to: usize) -> (s: String)
    requires
        from <= to <= chars@.len(),
    ensures
        s@ == chars@.subrange(from as int, to as int),
{
    let mut s = String::new();
    for i in from..to
        invariant
            from <= i <= to <= chars@.len(),
            s@ == chars@.subrange(from as int, i as int),
    {
        s.push(chars[i]);
        assert(chars@.subrange(from as int, i as int).push(chars@[i as int]) == chars@.subrange(
            from as int,
            i + 1,
        ));
    }
    s
}

/// Whether two strings hold the same characters.
pub fn same(a: &str, b: &str) -> (r: bool)
    ensures
        r == (a@ == b@),
{
    let x = to_chars(a);
    let y = to_chars(b);
    if x.len() != y.len() {
        return false;
    }
    for i in 0..x.len()
        invariant
            x@ == a@,
            y@ == b@,
            x@.len() == y@.len(),
            forall|j: int| 0 <= j < i ==> x@[j] == y@[j],
    {
        if x[i] != y[i] {
            return false;
        }
    }
    assert(x@ =~= y@);
    true
}

// ---------------------------------------------------------------------------
// Trimming
// ---------------------------------------------------------------------------

/// `s` without the longest run of characters of class `k` at its start.
pub open spec fn trim_start(s: Seq<char>, k: CharClass) -> Seq<char>
    decreases s.len(),
{
    if s.len() > 0 && k.holds(s[0]) {
        trim_start(s.drop_first(), k)
    } else {
        s
    }
}

/// `s` without the longest run of characters of class `k` at its end.
pub open spec fn trim_end(s: Seq<char>, k: CharClass) -> Seq<char>
    decreases s.len(),
{
    if s.len() > 0 && k.holds(s.last()) {
        trim_end(s.drop_last(), k)
    } else {
        s
    }
}

/// `s` without characters of class `k` at either end.
pub open spec fn trim(s: Seq<char>, k: CharClass) -> Seq<char> {
    trim_end(trim_start(s, k), k)
}

/// `s` without white space at either end.
pub open spec fn stripped(s: Seq<char>) -> Seq<char> {
    trim(s, CharClass::White)
}

/// Where the text is left once characters of class `k` are taken off its start.
fn start_after(chars: &Vec<char>, k: CharClass) -> (i: usize)
    ensures
        i <= chars@.len(),
        chars@.skip(i as int) == trim_start(chars@, k),
        i < chars@.len() ==> !k.holds(chars@[i as int]),
{
    let mut i: usize = 0;
    assert(chars@.skip(0) == chars@);
    while i < chars.len() && k.has(chars[i])
        invariant
            i <= chars@.len(),
            trim_start(chars@.skip(i as int), k) == trim_start(chars@, k),
        decreases chars@.len() - i,
    {
        assert(chars@.skip(i as int).drop_first() == chars@.skip(i + 1));
        i += 1;
    }
    i
}

/// Where the text from `from` on ends once characters of class `k` are taken
/// off its end.
fn end_before(chars: &Vec<char>, from: usize, k: CharClass) -> (j: usize)
    requires
        from <= chars@.len(),
    ensures
        from <= j <= chars@.len(),
        chars@.subrange(from as int, j as int) == trim_end(chars@.skip(from as int), k),
{
    let mut j: usize = chars.len();
    assert(chars@.subrange(from as int, j as int) == chars@.skip(from as int));
    while j > from && k.has(chars[j - 1])
        invariant
            from <= j <= chars@.len(),
            trim_end(chars@.subrange(from as int, j as int), k) == trim_end(
                chars@.skip(from as int),
                k,
            ),
        decreases j,
    {
        assert(chars@.subrange(from as int, j as int).drop_last() == chars@.subrange(
            from as int,
            j - 1,
        ));
        j -= 1;
    }
    j
}

/// Takes characters of class `k` off both ends.
pub fn trim_class(s: &str, k: CharClass) -> (r: String)
    ensures
        r@ == trim(s@, k),
{
    let chars = to_chars(s);
    let i = start_after(&chars, k);
    let j = end_before(&chars, i, k);
    from_chars(&chars, i, j)
}

/// Takes characters of class `k` off the end.
pub fn trim_end_class(s: &str, k: CharClass) -> (r: String)
    ensures
        r@ == trim_end(s@, k),
{
    let chars = to_chars(s);
    let j = end_before(&chars, 0, k);
    assert(chars@.skip(0) == chars@);
    from_chars(&chars, 0, j)
}

/// Takes white space off both ends.
pub fn trim_white(s: &str) -> (r: String)
    ensures
        r@ == stripped(s@),
{
    trim_class(s, CharClass::White)
}

/// Whether a string holds nothing but white space.
pub fn is_blank(s: &str) -> (r: bool)
    ensures
        r == (stripped(s@).len() == 0),
{
    let t = trim_white(s);
    t.as_str().is_empty()
}

proof fn lemma_ends_with_letter(s: Seq<char>)
    requires
        s.len() > 0,
        !is_white(s[0]),
    ensures
        trim_end(s, CharClass::White).len() > 0,
    decreases s.len(),
{
    if s.len() > 1 {
        assert(s.drop_last()[0] == s[0]);
        lemma_ends_with_letter(s.drop_last());
    }
}

/// A text that begins with anything but white space is not blank.
pub proof fn lemma_not_blank(s: Seq<char>)
    requires
        s.len() > 0,
        !is_white(s[0]),
    ensures
        stripped(s).len() > 0,
{
    lemma_ends_with_letter(s);
}

// ---------------------------------------------------------------------------
// Searching
// ---------------------------------------------------------------------------

/// Whether `s` begins with `p`.
pub open spec fn begins(s: Seq<char>, p: Seq<char>) -> bool {
    p.len() <= s.len() && s.take(p.len() as int) == p
}

/// Whether `p` occurs in `s` at position `i`.
pub open spec fn occurs_at(s: Seq<char>, p: Seq<char>, i: int) -> bool {
    0 <= i && i + p.len() <= s.len() && s.subrange(i, i + p.len()) == p
}

/// Whether `p` occurs anywhere in `s`.
pub open spec fn occurs(s: Seq<char>, p: Seq<char>) -> bool {
    exists|i: int| #[trigger] occurs_at(s, p, i)
}

/// What occurs in a text occurs in it with more behind.
pub proof fn lemma_occurs_left(a: Seq<char>, b: Seq<char>, part: Seq<char>)
    requires
        occurs(a, part),
    ensures
        occurs(a + b, part),
{
    let i = choose|i: int| #[trigger] occurs_at(a, part, i);
    assert((a + b).subrange(i, i + part.len()) =~= a.subrange(i, i + part.len()));
    assert(occurs_at(a + b, part, i));
}

/// What occurs in a text occurs in it with more before.
pub proof fn lemma_occurs_right(a: Seq<char>, b: Seq<char>, part: Seq<char>)
    requires
        occurs(b, part),
    ensures
        occurs(a + b, part),
{
    let i = choose|i: int| #[trigger] occurs_at(b, part, i);
    let j = a.len() + i;
    assert((a + b).subrange(j, j + part.len()) =~= b.subrange(i, i + part.len()));
    assert(occurs_at(a + b, part, j));
}

/// A text occurs behind another.
pub proof fn lemma_occurs_last(a: Seq<char>, part: Seq<char>)
    ensures
        occurs(a + part, part),
{
    assert(part.subrange(0, part.len() as int) =~= part);
    assert(occurs_at(part, part, 0));
    lemma_occurs_right(a, part, part);
}

/// Whether `p` occurs in `s` at position `i`.
fn matches_at(s: &Vec<char>, p: &Vec<char>, i: usize) -> (r: bool)
    ensures
        r == occurs_at(s@, p@, i as int),
{
    if p.len() > s.len() || i > s.len() - p.len() {
        return false;
    }
    for k in 0..p.len()
        invariant
            i + p.len() <= s.len(),
            forall|j: int| 0 <= j < k ==> s@[i + j] == p@[j],
    {
        if s[i + k] != p[k] {
            assert(s@.subrange(i as int, i + p@.len())[k as int] != p@[k as int]);
            return false;
        }
    }
    assert(s@.subrange(i as int, i + p@.len()) =~= p@);
    true
}

/// Whether `s` begins with `p`.
pub fn starts_with(s: &str, p: &str) -> (r: bool)
    ensures
        r == begins(s@, p@),
{
    let x = to_chars(s);
    let y = to_chars(p);
    let r = matches_at(&x, &y, 0);
    assert(p@.len() <= s@.len() ==> s@.subrange(0, p@.len() as int) == s@.take(p@.len() as int));
    r
}

/// Whether `p` occurs anywhere in `s`.
pub fn contains(s: &str, p: &str) -> (r: bool)
    ensures
        r == occurs(s@, p@),
{
    let x = to_chars(s);
    let y = to_chars(p);
    if y.len() > x.len() {
        return false;
    }
    let last: usize = x.len() - y.len();
    let mut i: usize = 0;
    while i <= last
        invariant
            x@ == s@,
            y@ == p@,
            last == x@.len() - y@.len(),
            i <= last + 1,
            forall|j: int| 0 <= j < i ==> !#[trigger] occurs_at(s@, p@, j),
        decreases last + 1 - i,
    {
        if matches_at(&x, &y, i) {
            return true;
        }
        if i == last {
            assert forall|j: int| !#[trigger] occurs_at(s@, p@, j) by {}
            return false;
        }
        i += 1;
    }
    false
}

/// The position of the first `c` in `s`, or the length of `s`.
pub open spec fn index_or_end(s: Seq<char>, c: char) -> int
    decreases s.len(),
{
    if s.len() == 0 || s[0] == c {
        0
    } else {
        1 + index_or_end(s.drop_first(), c)
    }
}

/// The part of `s` before the first `c`, all of it where there is none.
pub open spec fn before(s: Seq<char>, c: char) -> Seq<char> {
    s.take(index_or_end(s, c))
}

/// The part of a string before the first `c`.
pub fn up_to(s: &str, c: char) -> (r: String)
    ensures
        r@ == before(s@, c),
{
    let chars = to_chars(s);
    let mut i: usize = 0;
    assert(chars@.skip(0) == chars@);
    while i < chars.len() && chars[i] != c
        invariant
            i <= chars@.len(),
            index_or_end(chars@, c) == i + index_or_end(chars@.skip(i as int), c),
        decreases chars@.len() - i,
    {
        assert(chars@.skip(i as int).drop_first() == chars@.skip(i + 1));
        i += 1;
    }
    let r = from_chars(&chars, 0, i);
    assert(chars@.subrange(0, i as int) == chars@.take(i as int));
    r
}

// ---------------------------------------------------------------------------
// ASCII case
// ---------------------------------------------------------------------------

/// The lower-case form of an ASCII letter; any other character is itself.
pub open spec fn ascii_lower_char(c: char) -> char {
    if 'A' <= c && c <= 'Z' {
        (c as u8 + 32) as char
    } else {
        c
    }
}

/// `s` with its ASCII letters in lower case.
pub open spec fn ascii_lower(s: Seq<char>) -> Seq<char> {
    s.map_values(|c: char| ascii_lower_char(c))
}

/// The lower-case form of an ASCII letter; any other character is itself.
pub fn lower_char(c: char) -> (r: char)
    ensures
        r == ascii_lower_char(c),
{
    if 'A' <= c && c <= 'Z' {
        (c as u8 + 32) as char
    } else {
        c
    }
}

/// A string with its ASCII letters in lower case.
pub fn to_ascii_lower(s: &str) -> (r: String)
    ensures
        r@ == ascii_lower(s@),
{
    let mut r = String::new();
    for c in it: s.chars()
        invariant
            r@ == ascii_lower(s@.take(it.index())),
            it.seq() == s@,
    {
        r.push(lower_char(c));
        assert(ascii_lower(s@.take(it.index())).push(ascii_lower_char(c)) =~= ascii_lower(
            s@.take(it.index() + 1),
        ));
    }
    assert(s@.take(s@.len() as int) == s@);
    r
}

/// Whether two strings are equal up to the case of ASCII letters.
pub fn same_ignoring_ascii_case(a: &str, b: &str) -> (r: bool)
    ensures
        r == (ascii_lower(a@) == ascii_lower(b@)),
{
    let x = to_ascii_lower(a);
    let y = to_ascii_lower(b);
    same(x.as_str(), y.as_str())
}

// ---------------------------------------------------------------------------
// Words
// ---------------------------------------------------------------------------

/// The length of the longest run of characters at the start of `s` that are
/// not white space.
pub open spec fn word_len(s: Seq<char>) -> nat
    decreases s.len(),
{
    if s.len() == 0 || is_white(s[0]) {
        0
    } else {
        1 + word_len(s.drop_first())
    }
}

pub proof fn lemma_word_len(s: Seq<char>)
    ensures
        word_len(s) <= s.len(),
        forall|i: int| 0 <= i < word_len(s) ==> !is_white(s[i]),
        word_len(s) < s.len() ==> is_white(s[word_len(s) as int]),
    decreases s.len(),
{
    if s.len() > 0 && !is_white(s[0]) {
        let t = s.drop_first();
        lemma_word_len(t);
        assert forall|i: int| 0 <= i < word_len(s) implies !is_white(s[i]) by {
            if i > 0 {
                assert(s[i] == t[i - 1]);
            }
        }
    }
}

pub proof fn lemma_trim_start_len(s: Seq<char>, k: CharClass)
    ensures
        trim_start(s, k).len() <= s.len(),
        trim_start(s, k).len() > 0 ==> !k.holds(trim_start(s, k)[0]),
    decreases s.len(),
{
    if s.len() > 0 && k.holds(s[0]) {
        lemma_trim_start_len(s.drop_first(), k);
    }
}

/// The words of `s`: its maximal runs of characters that are not white space.
pub open spec fn words(s: Seq<char>) -> Seq<Seq<char>>
    decreases s.len(),
{
    let t = trim_start(s, CharClass::White);
    if t.len() == 0 {
        Seq::empty()
    } else {
        proof {
            lemma_trim_start_len(s, CharClass::White);
            lemma_word_len(t);
        }
        seq![t.take(word_len(t) as int)] + words(t.skip(word_len(t) as int))
    }
}

/// The text an optional string holds.
pub open spec fn text_in(s: Option<String>) -> Option<Seq<char>> {
    match s {
        Some(s) => Some(s@),
        None => None,
    }
}

/// What came of an attempt: a text, or what is wrong.
pub open spec fn outcome_of(r: Result<String, String>) -> Result<Seq<char>, Seq<char>> {
    match r {
        Ok(s) => Ok(s@),
        Err(e) => Err(e@),
    }
}

/// What a list of strings holds.
pub open spec fn texts(v: Seq<String>) -> Seq<Seq<char>> {
    v.map_values(|s: String| s@)
}

/// Splits a string into its words.
pub fn split_words(s: &str) -> (r: Vec<String>)
    ensures
        texts(r@) == words(s@),
{
    let chars = to_chars(s);
    let mut out: Vec<String> = Vec::new();
    let mut i: usize = 0;
    assert(chars@.skip(0) == chars@);
    assert(texts(out@) + words(chars@) =~= words(chars@));
    while i < chars.len()
        invariant
            i <= chars@.len(),
            texts(out@) + words(chars@.skip(i as int)) == words(chars@),
        decreases chars@.len() - i,
    {
        let ghost rest = chars@.skip(i as int);
        if is_whitespace(chars[i]) {
            assert(rest.drop_first() == chars@.skip(i + 1));
            proof {
                lemma_trim_start_len(rest, CharClass::White);
            }
            i += 1;
        } else {
            let start: usize = i;
            while i < chars.len() && !is_whitespace(chars[i])
                invariant
                    start <= i <= chars@.len(),
                    rest == chars@.skip(start as int),
                    word_len(rest) == i - start + word_len(chars@.skip(i as int)),
                decreases chars@.len() - i,
            {
                assert(chars@.skip(i as int).drop_first() == chars@.skip(i + 1));
                i += 1;
            }
            let ghost before_push = out@;
            let word = from_chars(&chars, start, i);
            assert(word@ == rest.take(word_len(rest) as int));
            assert(rest.skip(word_len(rest) as int) == chars@.skip(i as int));
            out.push(word);
            assert(texts(out@) =~= texts(before_push).push(word@));
            assert(texts(out@) + words(chars@.skip(i as int)) =~= texts(before_push) + (
            seq![word@] + words(chars@.skip(i as int))));
        }
    }
    assert(words(chars@.skip(i as int)) == Seq::<Seq<char>>::empty());
    assert(texts(out@) + Seq::<Seq<char>>::empty() =~= texts(out@));
    out
}

/// How many words a string holds.
pub fn word_count(s: &str) -> (n: usize)
    ensures
        n == words(s@).len(),
{
    let v = split_words(s);
    assert(texts(v@).len() == v@.len());
    v.len()
}

/// The texts of `v` with `sep` between each two.
pub open spec fn joined(v: Seq<Seq<char>>, sep: Seq<char>) -> Seq<char>
    decreases v.len(),
{
    if v.len() == 0 {
        Seq::empty()
    } else if v.len() == 1 {
        v[0]
    } else {
        joined(v.drop_last(), sep) + sep + v.last()
    }
}

/// Joins strings with a separator between each two.
pub fn join(v: &Vec<String>, sep: &str) -> (r: String)
    ensures
        r@ == joined(texts(v@), sep@),
{
    let mut r = String::new();
    for i in 0..v.len()
        invariant
            r@ == joined(texts(v@.take(i as int)), sep@),
    {
        if i > 0 {
            r.append(sep);
        }
        r.append(v[i].as_str());
        proof {
            let now = texts(v@.take(i + 1));
            assert(now.drop_last() =~= texts(v@.take(i as int)));
            assert(now.last() == v@[i as int]@);
        }
        assert(r@ =~= joined(texts(v@.take(i + 1)), sep@));
    }
    assert(v@.take(v@.len() as int) == v@);
    r
}

// ---------------------------------------------------------------------------
// Rendering
// ---------------------------------------------------------------------------

/// The decimal digit `d`.
pub open spec fn digit(d: int) -> char {
    (48 + d) as char
}

/// `n` in decimal, without leading zeros.
pub open spec fn decimal(n: nat) -> Seq<char>
    decreases n,
{
    if n < 10 {
        seq![digit(n as int)]
    } else {
        decimal(n / 10).push(digit((n % 10) as int))
    }
}

/// `n` in decimal with at least two digits.
pub open spec fn two_digits(n: nat) -> Seq<char> {
    if n < 10 {
        seq!['0'] + decimal(n)
    } else {
        decimal(n)
    }
}

/// Renders a number in decimal.
pub fn to_decimal(n: u64) -> (r: String)
    ensures
        r@ == decimal(n as nat),
    decreases n,
{
    let d: u8 = (n % 10) as u8;
    let mut r = if n < 10 {
        String::new()
    } else {
        to_decimal(n / 10)
    };
    r.push((48 + d) as char);
    assert(n < 10 ==> r@ =~= seq![digit(n as int)]);
    r
}

/// Renders a number in decimal with at least two digits.
pub fn to_two_digits(n: u64) -> (r: String)
    ensures
        r@ == two_digits(n as nat),
{
    let d = to_decimal(n);
    if n < 10 {
        let mut r = String::new();
        r.push('0');
        r.append(d.as_str());
        assert(r@ =~= seq!['0'] + decimal(n as nat));
        r
    } else {
        d
    }
}

/// How a truth value is written.
pub open spec fn truth(b: bool) -> Seq<char> {
    if b {
        "true"@
    } else {
        "false"@
    }
}

/// Renders a truth value.
pub fn to_truth(b: bool) -> (r: String)
    ensures
        r@ == truth(b),
{
    if b {
        "true".to_owned()
    } else {
        "false".to_owned()
    }
}

/// `s` with each `c` replaced by `by`.
pub open spec fn replaced(s: Seq<char>, c: char, by: Seq<char>) -> Seq<char>
    decreases s.len(),
{
    if s.len() == 0 {
        Seq::empty()
    } else {
        replaced(s.drop_last(), c, by) + (if s.last() == c {
            by
        } else {
            seq![s.last()]
        })
    }
}

pub proof fn lemma_replaced_concat(a: Seq<char>, b: Seq<char>, c: char, by: Seq<char>)
    ensures
        replaced(a + b, c, by) == replaced(a, c, by) + replaced(b, c, by),
    decreases b.len(),
{
    if b.len() == 0 {
        assert(a + b =~= a);
        assert(replaced(a, c, by) + replaced(b, c, by) =~= replaced(a, c, by));
    } else {
        assert((a + b).drop_last() =~= a + b.drop_last());
        lemma_replaced_concat(a, b.drop_last(), c, by);
        assert(replaced(a + b, c, by) =~= replaced(a, c, by) + replaced(b, c, by));
    }
}

pub proof fn lemma_replaced_nothing(s: Seq<char>, c: char, by: Seq<char>)
    requires
        forall|i: int| 0 <= i < s.len() ==> s[i] != c,
    ensures
        replaced(s, c, by) == s,
    decreases s.len(),
{
    if s.len() > 0 {
        lemma_replaced_nothing(s.drop_last(), c, by);
    }
    assert(replaced(s, c, by) =~= s);
}

pub proof fn lemma_replaced_one(c: char, by: Seq<char>)
    ensures
        replaced(seq![c], c, by) == by,
{
    let s = seq![c];
    assert(s.drop_last() =~= Seq::<char>::empty());
    assert(replaced(s.drop_last(), c, by) =~= Seq::<char>::empty());
    assert(replaced(s, c, by) =~= by);
}

/// Replaces each `c` of a string by `by`.
pub fn replace_char(s: &str, c: char, by: &str) -> (r: String)
    ensures
        r@ == replaced(s@, c, by@),
{
    let mut r = String::new();
    for x in it: s.chars()
        invariant
            r@ == replaced(s@.take(it.index()), c, by@),
            it.seq() == s@,
    {
        assert(s@.take(it.index() + 1).drop_last() == s@.take(it.index()));
        assert(s@.take(it.index() + 1).last() == x);
        let ghost before_push = r@;
        if x == c {
            r.append(by);
        } else {
            r.push(x);
            assert(r@ =~= before_push + seq![x]);
        }
    }
    assert(s@.take(s@.len() as int) == s@);
    r
}

// ---------------------------------------------------------------------------
// Laws
// ---------------------------------------------------------------------------

/// Whether every character of a text belongs to a class.
pub open spec fn all_of(s: Seq<char>, k: CharClass) -> bool {
    forall|i: int| 0 <= i < s.len() ==> k.holds(#[trigger] s[i])
}

/// Whether no character of a text is white space.
pub open spec fn no_white(s: Seq<char>) -> bool {
    forall|i: int| 0 <= i < s.len() ==> !is_white(#[trigger] s[i])
}

/// Trimming takes characters of the class off the end until one of another stands
/// there, and nothing else: what stands before them is what is left.
pub proof fn law_trim_end_takes_the_class_off(body: Seq<char>, tail: Seq<char>, k: CharClass)
    requires
        all_of(tail, k),
        body.len() > 0 ==> !k.holds(body.last()),
    ensures
        trim_end(body + tail, k) == body,
    decreases tail.len(),
{
    if tail.len() == 0 {
        assert(body + tail =~= body);
    } else {
        assert((body + tail).last() == tail[tail.len() - 1]);
        assert((body + tail).drop_last() =~= body + tail.drop_last());
        law_trim_end_takes_the_class_off(body, tail.drop_last(), k);
    }
}

/// Trimming takes characters of the class off the start until one of another stands
/// there, and nothing else.
pub proof fn law_trim_start_takes_the_class_off(head: Seq<char>, body: Seq<char>, k: CharClass)
    requires
        all_of(head, k),
        body.len() > 0 ==> !k.holds(body[0]),
    ensures
        trim_start(head + body, k) == body,
    decreases head.len(),
{
    if head.len() == 0 {
        assert(head + body =~= body);
    } else {
        assert((head + body)[0] == head[0]);
        assert((head + body).drop_first() =~= head.drop_first() + body);
        law_trim_start_takes_the_class_off(head.drop_first(), body, k);
    }
}

/// Trimming both ends leaves what stands between, whatever that holds inside.
pub proof fn law_trim_leaves_what_stands_between(
    head: Seq<char>,
    body: Seq<char>,
    tail: Seq<char>,
    k: CharClass,
)
    requires
        all_of(head, k),
        all_of(tail, k),
        body.len() > 0 ==> !k.holds(body[0]) && !k.holds(body.last()),
    ensures
        trim(head + body + tail, k) == body,
{
    assert(head + body + tail =~= head + (body + tail));
    if body.len() > 0 {
        assert((body + tail)[0] == body[0]);
        law_trim_start_takes_the_class_off(head, body + tail, k);
        law_trim_end_takes_the_class_off(body, tail, k);
    } else {
        assert(body + tail =~= tail);
        assert(head + body + tail =~= (head + tail) + body);
        assert(all_of(head + tail, k));
        law_trim_start_takes_the_class_off(head + tail, body, k);
        assert((head + tail) + body =~= head + (body + tail));
        law_trim_end_takes_the_class_off(body, Seq::empty(), k);
        assert(body + Seq::<char>::empty() =~= body);
    }
}

proof fn lemma_trim_start_splits(s: Seq<char>, k: CharClass)
    ensures
        trim_start(s, k).len() <= s.len(),
        s.skip(s.len() - trim_start(s, k).len()) == trim_start(s, k),
        all_of(s.take(s.len() - trim_start(s, k).len()), k),
    decreases s.len(),
{
    let n = s.len() - trim_start(s, k).len();
    if s.len() > 0 && k.holds(s[0]) {
        let rest = s.drop_first();
        lemma_trim_start_splits(rest, k);
        let m = rest.len() - trim_start(rest, k).len();
        assert(s.skip(n) =~= rest.skip(m));
        assert forall|i: int| 0 <= i < n implies k.holds(#[trigger] s.take(n)[i]) by {
            if i > 0 {
                assert(rest.take(m)[i - 1] == s[i]);
            }
        }
    } else {
        assert(s.skip(0) =~= s);
    }
}

proof fn lemma_trim_end_splits(s: Seq<char>, k: CharClass)
    ensures
        trim_end(s, k).len() <= s.len(),
        s.take(trim_end(s, k).len() as int) == trim_end(s, k),
        all_of(s.skip(trim_end(s, k).len() as int), k),
        trim_end(s, k).len() > 0 ==> !k.holds(trim_end(s, k).last()),
    decreases s.len(),
{
    let n = trim_end(s, k).len() as int;
    if s.len() > 0 && k.holds(s.last()) {
        let rest = s.drop_last();
        lemma_trim_end_splits(rest, k);
        assert(s.take(n) =~= rest.take(n));
        assert forall|i: int| 0 <= i < s.len() - n implies k.holds(#[trigger] s.skip(n)[i]) by {
            if i < rest.len() - n {
                assert(rest.skip(n)[i] == s[n + i]);
            }
        }
    } else {
        assert(s.take(s.len() as int) =~= s);
    }
}

/// What a trim leaves is a part of the text: only characters of the class stand before
/// and behind it, and it neither begins nor ends with one.
pub proof fn law_trim_loses_only_the_class(s: Seq<char>, k: CharClass)
    ensures
        trim(s, k).len() > 0 ==> !k.holds(trim(s, k)[0]) && !k.holds(trim(s, k).last()),
        exists|i: int, j: int|
            #![trigger s.subrange(i, j)]
            {
                &&& 0 <= i <= j <= s.len()
                &&& trim(s, k) == s.subrange(i, j)
                &&& all_of(s.take(i), k)
                &&& all_of(s.skip(j), k)
            },
{
    lemma_trim_start_splits(s, k);
    lemma_trim_start_len(s, k);
    let t = trim_start(s, k);
    lemma_trim_end_splits(t, k);
    let i = s.len() - t.len();
    let j = i + trim(s, k).len();
    assert(s.subrange(i, j) =~= t.take(trim(s, k).len() as int));
    assert(s.skip(j) =~= t.skip(trim(s, k).len() as int));
    if trim(s, k).len() > 0 {
        assert(trim(s, k)[0] == t[0]);
    }
}

/// A text without white space is one word.
pub proof fn law_a_run_is_one_word(w: Seq<char>)
    requires
        no_white(w),
        w.len() > 0,
    ensures
        words(w) == seq![w],
{
    lemma_word_len(w);
    assert(trim_start(w, CharClass::White) == w) by {
        assert(!is_white(w[0]));
    }
    assert(word_len(w) == w.len());
    assert(w.take(w.len() as int) =~= w);
    let rest = w.skip(w.len() as int);
    assert(words(rest) =~= Seq::<Seq<char>>::empty());
    assert(words(w) =~= seq![w]);
}

proof fn lemma_words_of_white(s: Seq<char>)
    requires
        all_of(s, CharClass::White),
    ensures
        words(s) == Seq::<Seq<char>>::empty(),
{
    assert(s + Seq::<char>::empty() =~= s);
    law_trim_start_takes_the_class_off(s, Seq::empty(), CharClass::White);
}

proof fn lemma_words_after_white(c: char, s: Seq<char>)
    requires
        is_white(c),
    ensures
        words(seq![c] + s) == words(s),
{
    assert((seq![c] + s)[0] == c);
    assert((seq![c] + s).drop_first() =~= s);
}

proof fn lemma_word_len_before_white(a: Seq<char>, c: char, b: Seq<char>)
    requires
        is_white(c),
    ensures
        word_len(a + seq![c] + b) == word_len(a),
    decreases a.len(),
{
    let all = a + seq![c] + b;
    if a.len() == 0 {
        assert(all[0] == c);
    } else {
        assert(all[0] == a[0]);
        assert(all.drop_first() =~= a.drop_first() + seq![c] + b);
        lemma_word_len_before_white(a.drop_first(), c, b);
    }
}

/// White space parts words and does nothing else: the words of two texts with a white
/// character between them are those of the first and then those of the second.
pub proof fn law_white_space_parts_words(a: Seq<char>, c: char, b: Seq<char>)
    requires
        is_white(c),
    ensures
        words(a + seq![c] + b) == words(a) + words(b),
    decreases a.len(),
{
    let all = a + seq![c] + b;
    if a.len() == 0 {
        lemma_words_of_white(a);
        assert(all =~= seq![c] + b);
        lemma_words_after_white(c, b);
        assert(words(a) + words(b) =~= words(b));
    } else if is_white(a[0]) {
        let rest = a.drop_first();
        law_white_space_parts_words(rest, c, b);
        assert(all =~= seq![a[0]] + (rest + seq![c] + b));
        lemma_words_after_white(a[0], rest + seq![c] + b);
        assert(a =~= seq![a[0]] + rest);
        lemma_words_after_white(a[0], rest);
    } else {
        lemma_word_len_before_white(a, c, b);
        lemma_word_len(a);
        let n = word_len(a) as int;
        assert(n > 0);
        assert(all[0] == a[0]);
        assert(all.take(n) =~= a.take(n));
        assert(all.skip(n) =~= a.skip(n) + seq![c] + b);
        law_white_space_parts_words(a.skip(n), c, b);
        assert(words(all) =~= seq![a.take(n)] + words(all.skip(n)));
        assert(words(a) =~= seq![a.take(n)] + words(a.skip(n)));
        assert(words(all) =~= words(a) + words(b));
    }
}

/// The number that decimal digits stand for.
pub open spec fn number_in(s: Seq<char>) -> int
    decreases s.len(),
{
    if s.len() == 0 {
        0
    } else {
        number_in(s.drop_last()) * 10 + (s.last() as int - '0' as int)
    }
}

/// Whether a text is made of decimal digits.
pub open spec fn all_digits(s: Seq<char>) -> bool {
    forall|i: int| 0 <= i < s.len() ==> '0' <= #[trigger] s[i] && s[i] <= '9'
}

/// A number reads back: what is written is made of digits that stand for it, and begins
/// with a zero for zero alone.
pub proof fn law_numbers_read_back(n: nat)
    ensures
        decimal(n).len() > 0,
        all_digits(decimal(n)),
        number_in(decimal(n)) == n,
        decimal(n)[0] == '0' ==> n == 0,
        decimal(n).len() == 1 <==> n < 10,
    decreases n,
{
    if n < 10 {
        assert(decimal(n).drop_last() =~= Seq::<char>::empty());
        assert(number_in(decimal(n).drop_last()) == 0);
    } else {
        law_numbers_read_back(n / 10);
        assert(decimal(n).drop_last() =~= decimal(n / 10));
        assert(decimal(n)[0] == decimal(n / 10)[0]);
    }
}

/// A number written with at least two digits reads back, and has two where it is below
/// one hundred.
pub proof fn law_two_digits_read_back(n: nat)
    ensures
        two_digits(n).len() >= 2,
        all_digits(two_digits(n)),
        number_in(two_digits(n)) == n,
        n < 100 ==> two_digits(n).len() == 2,
{
    law_numbers_read_back(n);
    if n < 10 {
        let s = two_digits(n);
        assert(s.drop_last() =~= seq!['0']);
        assert(seq!['0'].drop_last() =~= Seq::<char>::empty());
        assert(number_in(seq!['0'].drop_last()) == 0);
        assert(number_in(seq!['0']) == 0);
        assert(s.last() == decimal(n)[0]);
    } else if n < 100 {
        law_numbers_read_back(n / 10);
    }
}

/// Different numbers are written differently.
pub proof fn law_numbers_differ(a: nat, b: nat)
    requires
        decimal(a) == decimal(b),
    ensures
        a == b,
{
    law_numbers_read_back(a);
    law_numbers_read_back(b);
}

/// Joining texts joins their parts: the separator stands between each two of them and
/// nowhere else.
pub proof fn law_joined_in_parts(a: Seq<Seq<char>>, b: Seq<Seq<char>>, sep: Seq<char>)
    requires
        a.len() > 0,
        b.len() > 0,
    ensures
        joined(a + b, sep) == joined(a, sep) + sep + joined(b, sep),
        a.len() == 1 ==> joined(a, sep) == a[0],
    decreases b.len(),
{
    assert((a + b).drop_last() =~= a + b.drop_last());
    assert((a + b).last() == b.last());
    if b.len() == 1 {
        assert(a + b.drop_last() =~= a);
    } else {
        law_joined_in_parts(a, b.drop_last(), sep);
        assert(joined(a + b, sep) =~= joined(a, sep) + sep + joined(b, sep));
    }
}

/// What occurs in one of some texts occurs in them joined.
pub proof fn lemma_occurs_in_joined(v: Seq<Seq<char>>, i: int, sep: Seq<char>, part: Seq<char>)
    requires
        0 <= i < v.len(),
        occurs(v[i], part),
    ensures
        occurs(joined(v, sep), part),
    decreases v.len(),
{
    if v.len() > 1 {
        if i == v.len() - 1 {
            lemma_occurs_right(joined(v.drop_last(), sep) + sep, v.last(), part);
        } else {
            assert(v.drop_last()[i] == v[i]);
            lemma_occurs_in_joined(v.drop_last(), i, sep, part);
            lemma_occurs_left(joined(v.drop_last(), sep), sep, part);
            lemma_occurs_left(joined(v.drop_last(), sep) + sep, v.last(), part);
        }
    }
}

/// A text occurs in another exactly where that is the text with something before and
/// behind.
pub proof fn law_occurs_between(a: Seq<char>, part: Seq<char>, b: Seq<char>)
    ensures
        occurs(a + part + b, part),
        begins(part + b, part),
{
    lemma_occurs_last(a, part);
    lemma_occurs_left(a + part, b, part);
    assert((part + b).take(part.len() as int) =~= part);
}

/// What occurs in a text stands in it with something before and behind, and what it
/// begins with stands in front.
pub proof fn law_what_occurs_is_there(s: Seq<char>, part: Seq<char>)
    ensures
        occurs(s, part) ==> exists|a: Seq<char>, b: Seq<char>| s == #[trigger] (a + part + b),
        begins(s, part) ==> s == part + s.skip(part.len() as int),
{
    if occurs(s, part) {
        let i = choose|i: int| #[trigger] occurs_at(s, part, i);
        let a = s.take(i);
        let b = s.skip(i + part.len());
        assert(s =~= a + part + b);
    }
    if begins(s, part) {
        assert(s =~= s.take(part.len() as int) + s.skip(part.len() as int));
    }
}

/// What stands before the first of a character holds none, and where the text goes on
/// it goes on with that character.
pub proof fn law_before_stops_at_the_first(head: Seq<char>, c: char, tail: Seq<char>)
    requires
        forall|i: int| 0 <= i < head.len() ==> #[trigger] head[i] != c,
    ensures
        before(head + seq![c] + tail, c) == head,
        before(head, c) == head,
    decreases head.len(),
{
    lemma_index_behind(head, c, tail);
    assert((head + seq![c] + tail).take(head.len() as int) =~= head);
    assert(head.take(head.len() as int) =~= head);
}

proof fn lemma_index_behind(head: Seq<char>, c: char, tail: Seq<char>)
    requires
        forall|i: int| 0 <= i < head.len() ==> #[trigger] head[i] != c,
    ensures
        index_or_end(head + seq![c] + tail, c) == head.len(),
        index_or_end(head, c) == head.len(),
    decreases head.len(),
{
    let all = head + seq![c] + tail;
    if head.len() == 0 {
        assert(all[0] == c);
    } else {
        let rest = head.drop_first();
        assert(all[0] == head[0]);
        assert(all.drop_first() =~= rest + seq![c] + tail);
        assert forall|i: int| 0 <= i < rest.len() implies #[trigger] rest[i] != c by {
            assert(rest[i] == head[i + 1]);
        }
        lemma_index_behind(rest, c, tail);
    }
}

/// Lower case changes the twenty-six capital letters of ASCII into the small ones, place
/// by place, and nothing else.
pub proof fn law_lower_case_changes_capitals_alone(s: Seq<char>)
    ensures
        ascii_lower(s).len() == s.len(),
        ascii_lower("ABCDEFGHIJKLMNOPQRSTUVWXYZ"@) == "abcdefghijklmnopqrstuvwxyz"@,
        forall|i: int|
            0 <= i < s.len() && ascii_lower(s)[i] != #[trigger] s[i] ==> 65 <= s[i] as int <= 90
                && ascii_lower(s)[i] as int == s[i] as int + 32,
        forall|i: int|
            0 <= i < s.len() && 65 <= #[trigger] s[i] as int && s[i] as int <= 90
                ==> ascii_lower(s)[i] != s[i],
        ascii_lower(ascii_lower(s)) == ascii_lower(s),
{
    reveal_strlit("ABCDEFGHIJKLMNOPQRSTUVWXYZ");
    reveal_strlit("abcdefghijklmnopqrstuvwxyz");
    assert(ascii_lower("ABCDEFGHIJKLMNOPQRSTUVWXYZ"@) =~= "abcdefghijklmnopqrstuvwxyz"@);
    assert(ascii_lower(ascii_lower(s)) =~= ascii_lower(s));
}

proof fn lemma_words_behind_white(head: Seq<char>, s: Seq<char>)
    requires
        all_of(head, CharClass::White),
    ensures
        words(head + s) == words(s),
    decreases head.len(),
{
    if head.len() == 0 {
        assert(head + s =~= s);
    } else {
        let rest = head.drop_first();
        assert(is_white(head[0]));
        assert forall|i: int| 0 <= i < rest.len() implies CharClass::White.holds(
            #[trigger] rest[i],
        ) by {
            assert(rest[i] == head[i + 1]);
        }
        lemma_words_behind_white(rest, s);
        lemma_words_after_white(head[0], rest + s);
        assert(head + s =~= seq![head[0]] + (rest + s));
    }
}

proof fn lemma_words_before_white(s: Seq<char>, tail: Seq<char>)
    requires
        all_of(tail, CharClass::White),
    ensures
        words(s + tail) == words(s),
{
    if tail.len() == 0 {
        assert(s + tail =~= s);
    } else {
        let rest = tail.drop_first();
        assert(is_white(tail[0]));
        assert forall|i: int| 0 <= i < rest.len() implies CharClass::White.holds(
            #[trigger] rest[i],
        ) by {
            assert(rest[i] == tail[i + 1]);
        }
        lemma_words_of_white(rest);
        law_white_space_parts_words(s, tail[0], rest);
        assert(s + tail =~= s + seq![tail[0]] + rest);
        assert(words(s) + words(rest) =~= words(s));
    }
}

/// White space at either end is no part of any word: taking it off keeps the words.
pub proof fn law_stripping_keeps_the_words(s: Seq<char>)
    ensures
        words(stripped(s)) == words(s),
{
    law_trim_loses_only_the_class(s, CharClass::White);
    let (i, j) = choose|i: int, j: int|
        #![trigger s.subrange(i, j)]
        {
            &&& 0 <= i <= j <= s.len()
            &&& trim(s, CharClass::White) == s.subrange(i, j)
            &&& all_of(s.take(i), CharClass::White)
            &&& all_of(s.skip(j), CharClass::White)
        };
    let body = s.subrange(i, j);
    assert(s =~= s.take(i) + (body + s.skip(j)));
    lemma_words_behind_white(s.take(i), body + s.skip(j));
    lemma_words_before_white(body, s.skip(j));
}

/// Case does not matter to a search in lower case: what stands in a text in any ASCII
/// case is found.
pub proof fn law_lower_case_finds_any_case(
    a: Seq<char>,
    part: Seq<char>,
    b: Seq<char>,
    sought: Seq<char>,
)
    requires
        ascii_lower(part) == ascii_lower(sought),
    ensures
        occurs(ascii_lower(a + part + b), ascii_lower(sought)),
{
    let lower = ascii_lower(a + part + b);
    assert(lower =~= ascii_lower(a) + ascii_lower(part) + ascii_lower(b));
    law_occurs_between(ascii_lower(a), ascii_lower(part), ascii_lower(b));
}

/// Which characters are white space.
pub proof fn law_white_space_is_known(c: char)
    ensures
        is_white(c)
            <==> "\u{9}\u{a}\u{b}\u{c}\u{d}\u{20}\u{85}\u{a0}\u{1680}\u{2000}\u{2001}\u{2002}\u{2003}\u{2004}\u{2005}\u{2006}\u{2007}\u{2008}\u{2009}\u{200a}\u{2028}\u{2029}\u{202f}\u{205f}\u{3000}"@.contains(c),
{
    let all =
        "\u{9}\u{a}\u{b}\u{c}\u{d}\u{20}\u{85}\u{a0}\u{1680}\u{2000}\u{2001}\u{2002}\u{2003}\u{2004}\u{2005}\u{2006}\u{2007}\u{2008}\u{2009}\u{200a}\u{2028}\u{2029}\u{202f}\u{205f}\u{3000}"@;
    reveal_strlit(
        "\u{9}\u{a}\u{b}\u{c}\u{d}\u{20}\u{85}\u{a0}\u{1680}\u{2000}\u{2001}\u{2002}\u{2003}\u{2004}\u{2005}\u{2006}\u{2007}\u{2008}\u{2009}\u{200a}\u{2028}\u{2029}\u{202f}\u{205f}\u{3000}",
    );
    let n = c as int;
    if 9 <= n <= 13 {
        assert(all[n - 9] == c);
    } else if 0x2000 <= n <= 0x200a {
        assert(all[n - 0x2000 + 9] == c);
    } else if is_white(c) {
        assert(all[5] == '\u{20}' && all[6] == '\u{85}' && all[7] == '\u{a0}');
        assert(all[8] == '\u{1680}' && all[20] == '\u{2028}' && all[21] == '\u{2029}');
        assert(all[22] == '\u{202f}' && all[23] == '\u{205f}' && all[24] == '\u{3000}');
    }
}

/// White space is all that stripping loses: where any other character stands in a text,
/// something is left.
pub proof fn law_stripping_loses_only_white(s: Seq<char>)
    ensures
        stripped(s).len() == 0 <==> all_of(s, CharClass::White),
{
    law_trim_loses_only_the_class(s, CharClass::White);
    let (i, j) = choose|i: int, j: int|
        #![trigger s.subrange(i, j)]
        {
            &&& 0 <= i <= j <= s.len()
            &&& trim(s, CharClass::White) == s.subrange(i, j)
            &&& all_of(s.take(i), CharClass::White)
            &&& all_of(s.skip(j), CharClass::White)
        };
    if stripped(s).len() == 0 {
        assert forall|k: int| 0 <= k < s.len() implies CharClass::White.holds(#[trigger] s[k]) by {
            if k < i {
                assert(s.take(i)[k] == s[k]);
            } else {
                assert(s.skip(j)[k - j] == s[k]);
            }
        }
    } else {
        assert(s.subrange(i, j)[0] == s[i]);
    }
}

} // verus!
