//! Base64 over the standard alphabet, as used to store sealed secrets as text.

use vstd::prelude::*;

verus! {

// ---------------------------------------------------------------------------
// The alphabet
// ---------------------------------------------------------------------------

/// The character that stands for the six-bit value `v`.
pub open spec fn symbol(v: int) -> char {
    if v < 26 {
        (65 + v) as char
    } else if v < 52 {
        (97 + v - 26) as char
    } else if v < 62 {
        (48 + v - 52) as char
    } else if v == 62 {
        '+'
    } else {
        '/'
    }
}

/// The six-bit value that a character stands for, if it stands for one.
pub open spec fn value_of(c: char) -> Option<int> {
    if 'A' <= c && c <= 'Z' {
        Some(c as int - 65)
    } else if 'a' <= c && c <= 'z' {
        Some(c as int - 97 + 26)
    } else if '0' <= c && c <= '9' {
        Some(c as int - 48 + 52)
    } else if c == '+' {
        Some(62)
    } else if c == '/' {
        Some(63)
    } else {
        None
    }
}

/// Every symbol stands for the value it was made from, and none is padding.
pub proof fn lemma_symbol_value(v: int)
    requires
        0 <= v < 64,
    ensures
        value_of(symbol(v)) == Some(v),
        symbol(v) != '=',
{
}

fn symbol_for(v: u32) -> (c: char)
    requires
        v < 64,
    ensures
        c == symbol(v as int),
{
    let v: u8 = v as u8;
    if v < 26 {
        (65 + v) as char
    } else if v < 52 {
        (97 + (v - 26)) as char
    } else if v < 62 {
        (48 + (v - 52)) as char
    } else if v == 62 {
        '+'
    } else {
        '/'
    }
}

fn value_for(c: char) -> (r: Option<u32>)
    ensures
        match r {
            Some(v) => v < 64 && value_of(c) == Some(v as int),
            None => value_of(c) is None,
        },
{
    let n: u32 = c as u32;
    if 'A' <= c && c <= 'Z' {
        Some(n - 65)
    } else if 'a' <= c && c <= 'z' {
        Some(n - 97 + 26)
    } else if '0' <= c && c <= '9' {
        Some(n - 48 + 52)
    } else if c == '+' {
        Some(62)
    } else if c == '/' {
        Some(63)
    } else {
        None
    }
}

// ---------------------------------------------------------------------------
// Encoding
// ---------------------------------------------------------------------------

/// The 24-bit number that three bytes make.
pub open spec fn triple(a: int, b: int, c: int) -> int {
    a * 65536 + b * 256 + c
}

/// The four symbols for one group of one, two or three bytes, padded with `=`.
pub open spec fn group(b: Seq<u8>) -> Seq<char> {
    let n = triple(
        b[0] as int,
        if b.len() > 1 {
            b[1] as int
        } else {
            0
        },
        if b.len() > 2 {
            b[2] as int
        } else {
            0
        },
    );
    seq![
        symbol(n / 262144),
        symbol(n / 4096 % 64),
        if b.len() > 1 {
            symbol(n / 64 % 64)
        } else {
            '='
        },
        if b.len() > 2 {
            symbol(n % 64)
        } else {
            '='
        },
    ]
}

/// The base64 text of `b`.
pub open spec fn encoded(b: Seq<u8>) -> Seq<char>
    decreases b.len(),
{
    if b.len() == 0 {
        Seq::empty()
    } else if b.len() <= 3 {
        group(b)
    } else {
        group(b.take(3)) + encoded(b.skip(3))
    }
}

/// Encodes bytes as base64 text.
pub fn base64_encode(input: &[u8]) -> (out: String)
    ensures
        out@ == encoded(input@),
{
    let mut out = String::new();
    let mut i: usize = 0;
    assert(input@.skip(0) == input@);
    assert(Seq::<char>::empty() + encoded(input@) =~= encoded(input@));
    while i < input.len()
        invariant
            i <= input@.len(),
            out@ + encoded(input@.skip(i as int)) == encoded(input@),
        decreases input@.len() - i,
    {
        let ghost rest = input@.skip(i as int);
        let left: usize = input.len() - i;
        let b0: u32 = input[i] as u32;
        let b1: u32 = if left > 1 {
            input[i + 1] as u32
        } else {
            0
        };
        let b2: u32 = if left > 2 {
            input[i + 2] as u32
        } else {
            0
        };
        let n: u32 = b0 * 65536 + b1 * 256 + b2;
        let ghost head = if rest.len() <= 3 {
            rest
        } else {
            rest.take(3)
        };
        let ghost done = out@;
        out.push(symbol_for(n / 262144));
        out.push(symbol_for(n / 4096 % 64));
        out.push(
            if left > 1 {
                symbol_for(n / 64 % 64)
            } else {
                '='
            },
        );
        out.push(
            if left > 2 {
                symbol_for(n % 64)
            } else {
                '='
            },
        );
        assert(n == triple(
            head[0] as int,
            if head.len() > 1 {
                head[1] as int
            } else {
                0
            },
            if head.len() > 2 {
                head[2] as int
            } else {
                0
            },
        ));
        assert(out@ =~= done + group(head));
        if left <= 3 {
            i = input.len();
            assert(input@.skip(i as int) =~= Seq::<u8>::empty());
            assert(out@ + encoded(input@.skip(i as int)) =~= done + encoded(rest));
        } else {
            i += 3;
            assert(rest.skip(3) == input@.skip(i as int));
            assert(out@ + encoded(input@.skip(i as int)) =~= done + encoded(rest));
        }
    }
    assert(input@.skip(i as int) =~= Seq::<u8>::empty());
    assert(out@ + Seq::<char>::empty() =~= out@);
    out
}

// ---------------------------------------------------------------------------
// Decoding
// ---------------------------------------------------------------------------

/// `s` without its padding characters.
pub open spec fn unpadded(s: Seq<char>) -> Seq<char>
    decreases s.len(),
{
    if s.len() == 0 {
        Seq::empty()
    } else if s.last() == '=' {
        unpadded(s.drop_last())
    } else {
        unpadded(s.drop_last()).push(s.last())
    }
}

/// The value of the symbol at `i`, zero past the end.
pub open spec fn value_at(k: Seq<char>, i: int) -> int {
    if i < k.len() {
        value_of(k[i])->0
    } else {
        0
    }
}

/// The bytes that one group of one to four symbols holds: one byte for up to
/// two symbols, two for three, three for four. `None` where a character is
/// outside the alphabet.
pub open spec fn group_bytes(k: Seq<char>) -> Option<Seq<u8>> {
    let n = value_at(k, 0) * 262144 + value_at(k, 1) * 4096 + value_at(k, 2) * 64 + value_at(k, 3);
    let a = (n / 65536) as u8;
    let b = (n / 256 % 256) as u8;
    let c = (n % 256) as u8;
    if exists|i: int| 0 <= i < k.len() && value_of(#[trigger] k[i]) is None {
        None
    } else if k.len() <= 2 {
        Some(seq![a])
    } else if k.len() == 3 {
        Some(seq![a, b])
    } else {
        Some(seq![a, b, c])
    }
}

/// The bytes that a run of symbols without padding holds.
pub open spec fn symbol_bytes(k: Seq<char>) -> Option<Seq<u8>>
    decreases k.len(),
{
    if k.len() == 0 {
        Some(Seq::empty())
    } else if k.len() <= 4 {
        group_bytes(k)
    } else {
        match (group_bytes(k.take(4)), symbol_bytes(k.skip(4))) {
            (Some(head), Some(tail)) => Some(head + tail),
            _ => None,
        }
    }
}

/// The bytes that a base64 text holds, wherever its padding stands.
pub open spec fn decoded(s: Seq<char>) -> Option<Seq<u8>> {
    symbol_bytes(unpadded(s))
}

/// The bytes an optional vector holds.
pub open spec fn bytes_of(v: Option<Vec<u8>>) -> Option<Seq<u8>> {
    match v {
        Some(b) => Some(b@),
        None => None,
    }
}

fn without_padding(s: &str) -> (kept: Vec<char>)
    ensures
        kept@ == unpadded(s@),
{
    let mut kept: Vec<char> = Vec::new();
    for c in it: s.chars()
        invariant
            kept@ == unpadded(s@.take(it.index())),
            it.seq() == s@,
    {
        assert(s@.take(it.index() + 1).drop_last() == s@.take(it.index()));
        assert(s@.take(it.index() + 1).last() == c);
        if c != '=' {
            kept.push(c);
        }
    }
    assert(s@.take(s@.len() as int) == s@);
    kept
}

/// The value at `i` of the group that starts at `at` and holds `len` symbols:
/// `None` for a character outside the alphabet, zero past the end.
fn group_value(k: &Vec<char>, at: usize, len: usize, i: usize) -> (r: Option<u32>)
    requires
        at + len <= k.len(),
        0 <= i < 4,
    ensures
        ({
            let g = k@.subrange(at as int, at + len);
            match r {
                Some(v) => v < 64 && v == value_at(g, i as int) && (i < len ==> value_of(
                    g[i as int],
                ) is Some),
                None => i < len && value_of(g[i as int]) is None,
            }
        }),
{
    if i < len {
        value_for(k[at + i])
    } else {
        Some(0)
    }
}

/// Decodes base64 text. Padding is ignored wherever it stands; any other
/// character outside the alphabet makes the text unreadable.
pub fn base64_decode(input: &str) -> (out: Option<Vec<u8>>)
    ensures
        bytes_of(out) == decoded(input@),
{
    let k = without_padding(input);
    let mut out: Vec<u8> = Vec::new();
    let mut i: usize = 0;
    assert(k@.skip(0) == k@);
    while i < k.len()
        invariant
            i <= k@.len(),
            match symbol_bytes(k@.skip(i as int)) {
                Some(tail) => symbol_bytes(k@) == Some(out@ + tail),
                None => symbol_bytes(k@) is None,
            },
            k@ == unpadded(input@),
        decreases k@.len() - i,
    {
        let ghost rest = k@.skip(i as int);
        let len: usize = if k.len() - i < 4 {
            k.len() - i
        } else {
            4
        };
        let ghost g = k@.subrange(i as int, i + len);
        assert(rest.len() <= 4 ==> g =~= rest);
        assert(rest.len() > 4 ==> g =~= rest.take(4));
        let v0 = group_value(&k, i, len, 0);
        let v1 = group_value(&k, i, len, 1);
        let v2 = group_value(&k, i, len, 2);
        let v3 = group_value(&k, i, len, 3);
        match (v0, v1, v2, v3) {
            (Some(v0), Some(v1), Some(v2), Some(v3)) => {
                let n: u32 = v0 * 262144 + v1 * 4096 + v2 * 64 + v3;
                assert forall|j: int| 0 <= j < g.len() implies value_of(#[trigger] g[j]) is Some by {
                    assert(j == 0 || j == 1 || j == 2 || j == 3);
                }
                let ghost done = out@;
                out.push((n / 65536) as u8);
                if len > 2 {
                    out.push((n / 256 % 256) as u8);
                }
                if len > 3 {
                    out.push((n % 256) as u8);
                }
                assert(group_bytes(g) is Some);
                assert(out@ =~= done + group_bytes(g)->0);
                i += len;
                assert(rest.len() > 4 ==> rest.skip(4) =~= k@.skip(i as int));
                assert(rest.len() <= 4 ==> k@.skip(i as int) =~= Seq::<char>::empty());
                proof {
                    match symbol_bytes(k@.skip(i as int)) {
                        Some(tail) => {
                            assert(out@ + tail =~= done + (group_bytes(g)->0 + tail));
                            assert(rest.len() <= 4 ==> group_bytes(g)->0 + tail =~= group_bytes(g)->0);
                        },
                        None => {},
                    }
                }
            },
            _ => {
                assert(exists|j: int| 0 <= j < g.len() && value_of(#[trigger] g[j]) is None) by {
                    if v0 is None {
                        assert(value_of(g[0]) is None);
                    } else if v1 is None {
                        assert(value_of(g[1]) is None);
                    } else if v2 is None {
                        assert(value_of(g[2]) is None);
                    } else {
                        assert(value_of(g[3]) is None);
                    }
                }
                assert(group_bytes(g) is None);
                assert(symbol_bytes(rest) is None);
                return None;
            },
        }
    }
    assert(k@.skip(i as int) =~= Seq::<char>::empty());
    assert(out@ + Seq::<u8>::empty() =~= out@);
    Some(out)
}

// ---------------------------------------------------------------------------
// Decoding undoes encoding
// ---------------------------------------------------------------------------

proof fn lemma_unpadded_concat(a: Seq<char>, b: Seq<char>)
    ensures
        unpadded(a + b) == unpadded(a) + unpadded(b),
    decreases b.len(),
{
    if b.len() == 0 {
        assert(a + b =~= a);
        assert(unpadded(a) + unpadded(b) =~= unpadded(a));
    } else {
        assert((a + b).drop_last() =~= a + b.drop_last());
        lemma_unpadded_concat(a, b.drop_last());
        assert(unpadded(a + b) =~= unpadded(a) + unpadded(b));
    }
}

/// How many symbols of a group are not padding.
spec fn symbols_in(b: Seq<u8>) -> int {
    if b.len() >= 3 {
        4
    } else {
        b.len() as int + 1
    }
}

/// A 24-bit number is made of its three bytes.
proof fn lemma_bytes(a: int, b: int, c: int)
    requires
        0 <= a < 256,
        0 <= b < 256,
        0 <= c < 256,
    ensures
        ({
            let n = triple(a, b, c);
            &&& 0 <= n / 262144 < 64
            &&& n / 65536 == a
            &&& n / 256 % 256 == b
            &&& n % 256 == c
            &&& c == 0 ==> n % 64 == 0
            &&& b == 0 && c == 0 ==> n / 64 % 64 == 0
        }),
{
    let n = triple(a, b, c);
    assert(n / 256 == a * 256 + b);
    if b == 0 && c == 0 {
        assert(n / 64 == a * 1024);
    }
}

/// A 24-bit number is made of its four sextets, and of its three bytes.
proof fn lemma_sextets(a: int, b: int, c: int)
    requires
        0 <= a < 256,
        0 <= b < 256,
        0 <= c < 256,
    ensures
        ({
            let n = triple(a, b, c);
            &&& 0 <= n / 262144 < 64
            &&& n == n / 262144 * 262144 + n / 4096 % 64 * 4096 + n / 64 % 64 * 64 + n % 64
            &&& n / 65536 == a
            &&& n / 256 % 256 == b
            &&& n % 256 == c
            &&& c == 0 ==> n % 64 == 0
            &&& b == 0 && c == 0 ==> n / 64 % 64 == 0
        }),
{
    let n = triple(a, b, c);
    let q1 = n / 64;
    let q2 = n / 4096;
    let q3 = n / 262144;
    assert(q1 / 64 == q2) by {
        vstd::arithmetic::div_mod::lemma_div_denominator(n, 64, 64);
    }
    assert(q2 / 64 == q3) by {
        vstd::arithmetic::div_mod::lemma_div_denominator(n, 4096, 64);
    }
    assert(n == q1 * 64 + n % 64);
    assert(q1 == q2 * 64 + q1 % 64);
    assert(q2 == q3 * 64 + q2 % 64);
    lemma_bytes(a, b, c);
}

/// Only the padding of a group is taken away.
proof fn lemma_group_symbols(b: Seq<u8>)
    requires
        1 <= b.len() <= 3,
    ensures
        unpadded(group(b)) == group(b).take(symbols_in(b)),
{
    let g = group(b);
    let n = triple(
        b[0] as int,
        if b.len() > 1 {
            b[1] as int
        } else {
            0
        },
        if b.len() > 2 {
            b[2] as int
        } else {
            0
        },
    );
    lemma_sextets(n / 65536, n / 256 % 256, n % 256);
    lemma_symbol_value(n / 262144);
    lemma_symbol_value(n / 4096 % 64);
    lemma_symbol_value(n / 64 % 64);
    lemma_symbol_value(n % 64);
    let g3 = g.drop_last();
    let g2 = g3.drop_last();
    let g1 = g2.drop_last();
    assert(unpadded(g1.drop_last()) =~= Seq::<char>::empty());
    assert(unpadded(g1) =~= g.take(1));
    assert(unpadded(g2) =~= g.take(2));
    assert(unpadded(g3) =~= if b.len() > 1 {
        g.take(3)
    } else {
        g.take(2)
    });
    assert(unpadded(g) =~= g.take(symbols_in(b)));
}

/// One group gives its bytes back.
proof fn lemma_group_unpadded(b: Seq<u8>)
    requires
        1 <= b.len() <= 3,
    ensures
        unpadded(group(b)) == group(b).take(symbols_in(b)),
        group_bytes(unpadded(group(b))) == Some(b),
{
    let b1 = if b.len() > 1 {
        b[1] as int
    } else {
        0
    };
    let b2 = if b.len() > 2 {
        b[2] as int
    } else {
        0
    };
    let n = triple(b[0] as int, b1, b2);
    lemma_group_symbols(b);
    lemma_sextets(b[0] as int, b1, b2);
    lemma_symbol_value(n / 262144);
    lemma_symbol_value(n / 4096 % 64);
    lemma_symbol_value(n / 64 % 64);
    lemma_symbol_value(n % 64);
    let k = unpadded(group(b));
    assert(value_at(k, 0) == n / 262144);
    assert(value_at(k, 1) == n / 4096 % 64);
    assert(value_at(k, 2) == n / 64 % 64);
    assert(value_at(k, 3) == n % 64);
    assert forall|i: int| 0 <= i < k.len() implies value_of(#[trigger] k[i]) is Some by {
        assert(i == 0 || i == 1 || i == 2 || i == 3);
    }
    assert(group_bytes(k)->0 =~= b);
}

/// Decoding the base64 text of any bytes gives those bytes back.
pub proof fn law_decode_undoes_encode(b: Seq<u8>)
    ensures
        decoded(encoded(b)) == Some(b),
    decreases b.len(),
{
    if b.len() == 0 {
        assert(unpadded(encoded(b)) =~= Seq::<char>::empty());
        assert(b =~= Seq::<u8>::empty());
    } else if b.len() <= 3 {
        lemma_group_unpadded(b);
    } else {
        let head = b.take(3);
        let tail = b.skip(3);
        lemma_group_unpadded(head);
        law_decode_undoes_encode(tail);
        lemma_unpadded_concat(group(head), encoded(tail));
        let k = unpadded(encoded(b));
        assert(k.take(4) =~= unpadded(group(head)));
        assert(k.skip(4) =~= unpadded(encoded(tail)));
        assert(unpadded(encoded(tail)).len() > 0) by {
            assert(symbol_bytes(Seq::<char>::empty()) == Some(Seq::<u8>::empty()));
            if unpadded(encoded(tail)).len() == 0 {
                assert(unpadded(encoded(tail)) =~= Seq::<char>::empty());
                assert(tail.len() == 0);
            }
        }
        assert(head + tail =~= b);
    }
}

/// The base64 text of `n` bytes has four characters for each three bytes begun.
pub proof fn law_encoded_length(b: Seq<u8>)
    ensures
        encoded(b).len() == (b.len() + 2) / 3 * 4,
    decreases b.len(),
{
    if b.len() > 3 {
        law_encoded_length(b.skip(3));
    }
}

/// The alphabet: the capital letters, the small ones, the digits, a plus and a slash, in
/// this order, and nothing else.
pub proof fn law_the_alphabet(v: int, c: char)
    requires
        0 <= v < 64,
    ensures
        symbol(v) == "ABCDEFGHIJKLMNOPQRSTUVWXYZabcdefghijklmnopqrstuvwxyz0123456789+/"@[v],
        value_of(c) == Some(v) <==> c
            == "ABCDEFGHIJKLMNOPQRSTUVWXYZabcdefghijklmnopqrstuvwxyz0123456789+/"@[v],
        value_of(c) matches Some(w) ==> 0 <= w < 64,
{
    reveal_strlit("ABCDEFGHIJKLMNOPQRSTUVWXYZabcdefghijklmnopqrstuvwxyz0123456789+/");
}

/// Three bytes and their four symbols make the same number, the first byte and the first
/// symbol in front.
pub proof fn law_three_bytes_are_four_symbols(a: u8, b: u8, c: u8)
    ensures
        ({
            let s = encoded(seq![a, b, c]);
            &&& s.len() == 4
            &&& value_of(s[0])->0 * 262144 + value_of(s[1])->0 * 4096 + value_of(s[2])->0 * 64
                + value_of(s[3])->0 == a * 65536 + b * 256 + c
        }),
{
    let n = triple(a as int, b as int, c as int);
    lemma_sextets(a as int, b as int, c as int);
    lemma_symbol_value(n / 262144);
    lemma_symbol_value(n / 4096 % 64);
    lemma_symbol_value(n / 64 % 64);
    lemma_symbol_value(n % 64);
}

/// Bytes are encoded three by three, so what stands behind whole groups is encoded as if
/// it stood alone.
pub proof fn law_groups_are_encoded_alone(a: Seq<u8>, b: Seq<u8>)
    requires
        a.len() % 3 == 0,
    ensures
        encoded(a + b) == encoded(a) + encoded(b),
    decreases a.len(),
{
    if a.len() == 0 {
        assert(a + b =~= b);
        assert(encoded(a) + encoded(b) =~= encoded(b));
    } else if b.len() == 0 {
        assert(a + b =~= a);
        assert(encoded(a) + encoded(b) =~= encoded(a));
    } else {
        let rest = a.skip(3);
        law_groups_are_encoded_alone(rest, b);
        assert((a + b).take(3) =~= a.take(3));
        assert((a + b).skip(3) =~= rest + b);
        if a.len() == 3 {
            assert(a.take(3) =~= a);
            assert(encoded(rest) =~= Seq::<char>::empty());
            assert(encoded(rest) + encoded(b) =~= encoded(b));
        } else {
            assert(encoded(a + b) =~= encoded(a) + encoded(b));
        }
    }
}

/// Padding is ignored wherever it stands.
pub proof fn law_padding_does_not_matter(a: Seq<char>, b: Seq<char>)
    ensures
        decoded(a + seq!['='] + b) == decoded(a + b),
{
    lemma_unpadded_concat(a + seq!['='], b);
    lemma_unpadded_concat(a, seq!['=']);
    lemma_unpadded_concat(a, b);
    assert(seq!['='].drop_last() =~= Seq::<char>::empty());
    reveal_with_fuel(unpadded, 2);
    assert(unpadded(seq!['=']) =~= Seq::<char>::empty());
    assert(unpadded(a) + Seq::<char>::empty() =~= unpadded(a));
}

/// Whether every character of a text stands for a value or is padding.
pub open spec fn is_readable(s: Seq<char>) -> bool {
    forall|i: int| 0 <= i < s.len() ==> value_of(#[trigger] s[i]) is Some || s[i] == '='
}

proof fn lemma_unpadded_readable(s: Seq<char>)
    ensures
        is_readable(s) <==> forall|i: int|
            0 <= i < unpadded(s).len() ==> value_of(#[trigger] unpadded(s)[i]) is Some,
    decreases s.len(),
{
    if s.len() > 0 {
        let less = s.drop_last();
        let u = unpadded(less);
        lemma_unpadded_readable(less);
        assert forall|i: int| 0 <= i < less.len() implies #[trigger] less[i] == s[i] by {}
        if s.last() == '=' {
            assert(is_readable(s) <==> is_readable(less)) by {
                if is_readable(less) {
                    assert forall|i: int| 0 <= i < s.len() implies value_of(#[trigger] s[i]) is Some
                        || s[i] == '=' by {
                        if i < less.len() {
                            assert(less[i] == s[i]);
                        }
                    }
                }
            }
        } else {
            let all = unpadded(s);
            assert(all == u.push(s.last()));
            if is_readable(s) {
                assert(is_readable(less));
                assert(value_of(s[s.len() - 1]) is Some);
            }
            if forall|i: int| 0 <= i < all.len() ==> value_of(#[trigger] all[i]) is Some {
                assert forall|i: int| 0 <= i < u.len() implies value_of(#[trigger] u[i]) is Some by {
                    assert(all[i] == u[i]);
                }
                assert(value_of(all[all.len() - 1]) is Some);
                assert forall|i: int| 0 <= i < s.len() implies value_of(#[trigger] s[i]) is Some
                    || s[i] == '=' by {
                    if i < less.len() {
                        assert(less[i] == s[i]);
                    }
                }
            }
        }
    }
}

proof fn lemma_symbols_readable(k: Seq<char>)
    ensures
        symbol_bytes(k) is Some <==> forall|i: int|
            0 <= i < k.len() ==> value_of(#[trigger] k[i]) is Some,
    decreases k.len(),
{
    if k.len() > 4 {
        let head = k.take(4);
        let tail = k.skip(4);
        lemma_symbols_readable(tail);
        if forall|i: int| 0 <= i < k.len() ==> value_of(#[trigger] k[i]) is Some {
            assert forall|i: int| 0 <= i < head.len() implies value_of(#[trigger] head[i]) is Some by {
                assert(head[i] == k[i]);
            }
            assert forall|i: int| 0 <= i < tail.len() implies value_of(#[trigger] tail[i]) is Some by {
                assert(tail[i] == k[i + 4]);
            }
        }
        if symbol_bytes(k) is Some {
            assert forall|i: int| 0 <= i < k.len() implies value_of(#[trigger] k[i]) is Some by {
                if i < 4 {
                    assert(head[i] == k[i]);
                } else {
                    assert(tail[i - 4] == k[i]);
                }
            }
        }
    }
}

/// A text can be read exactly where each of its characters is in the alphabet or is
/// padding.
pub proof fn law_foreign_characters_are_refused(s: Seq<char>)
    ensures
        decoded(s) is Some <==> is_readable(s),
{
    lemma_unpadded_readable(s);
    lemma_symbols_readable(unpadded(s));
}

/// Symbols are read four by four, so what stands behind whole groups is read as if it
/// stood alone.
pub proof fn law_groups_are_read_alone(a: Seq<char>, b: Seq<char>)
    requires
        is_readable(a),
        is_readable(b),
        a.len() == 4,
        forall|i: int| 0 <= i < 4 ==> #[trigger] a[i] != '=',
    ensures
        decoded(a + b) == Some(decoded(a)->0 + decoded(b)->0),
{
    law_foreign_characters_are_refused(a);
    law_foreign_characters_are_refused(b);
    lemma_unpadded_concat(a, b);
    lemma_nothing_to_take(a);
    let k = unpadded(b);
    if k.len() == 0 {
        assert(k =~= Seq::<char>::empty());
        assert(a + k =~= a);
        assert(decoded(a)->0 + decoded(b)->0 =~= decoded(a)->0);
    } else {
        assert((a + k).take(4) =~= a);
        assert((a + k).skip(4) =~= k);
    }
}

proof fn lemma_nothing_to_take(a: Seq<char>)
    requires
        forall|i: int| 0 <= i < a.len() ==> #[trigger] a[i] != '=',
    ensures
        unpadded(a) == a,
    decreases a.len(),
{
    if a.len() > 0 {
        let less = a.drop_last();
        assert forall|i: int| 0 <= i < less.len() implies #[trigger] less[i] != '=' by {
            assert(less[i] == a[i]);
        }
        lemma_nothing_to_take(less);
        assert(a[a.len() - 1] != '=');
        assert(less.push(a.last()) =~= a);
    } else {
        assert(unpadded(a) =~= a);
    }
}

proof fn lemma_left_bits(v: int, w: int, x: int)
    requires
        0 <= v < 64,
        0 <= w < 64,
        0 <= x < 64,
    ensures
        ({
            let n = v * 262144 + w * 4096 + x * 64;
            &&& n / 65536 == v * 4 + w / 16
            &&& n / 256 % 256 == w % 16 * 16 + x / 4
            &&& 0 <= n / 65536 < 256
        }),
{
    let n = v * 262144 + w * 4096 + x * 64;
    let a = w / 16;
    let b = w % 16;
    let c = x / 4;
    let d = x % 4;
    vstd::arithmetic::div_mod::lemma_fundamental_div_mod_converse(
        n,
        65536,
        v * 4 + a,
        b * 4096 + x * 64,
    );
    let q = (v * 4 + a) * 256 + (b * 16 + c);
    vstd::arithmetic::div_mod::lemma_fundamental_div_mod_converse(n, 256, q, d * 64);
    vstd::arithmetic::div_mod::lemma_fundamental_div_mod_converse(q, 256, v * 4 + a, b * 16 + c);
}

/// One symbol alone gives the byte that it begins.
pub proof fn law_one_symbol_begins_a_byte(v: int)
    requires
        0 <= v < 64,
    ensures
        decoded(seq![symbol(v)]) == Some(seq![(v * 4) as u8]),
{
    lemma_symbol_value(v);
    lemma_left_bits(v, 0, 0);
    let k = seq![symbol(v)];
    lemma_nothing_to_take(k);
    assert(value_of(k[0]) == Some(v));
}

/// Two symbols give the one byte that is complete: the bits that are left over go.
pub proof fn law_two_symbols_give_a_byte(v: int, w: int)
    requires
        0 <= v < 64,
        0 <= w < 64,
    ensures
        ({
            let two = decoded(seq![symbol(v), symbol(w)])->0;
            two.len() == 1 && two[0] * 16 <= v * 64 + w < (two[0] + 1) * 16
        }),
{
    lemma_symbol_value(v);
    lemma_symbol_value(w);
    lemma_left_bits(v, w, 0);
    let k = seq![symbol(v), symbol(w)];
    lemma_nothing_to_take(k);
    assert(value_of(k[0]) == Some(v) && value_of(k[1]) == Some(w));
}

/// Three symbols give the two bytes that are complete: the bits that are left over go.
pub proof fn law_three_symbols_give_two_bytes(v: int, w: int, x: int)
    requires
        0 <= v < 64,
        0 <= w < 64,
        0 <= x < 64,
    ensures
        ({
            let three = decoded(seq![symbol(v), symbol(w), symbol(x)])->0;
            let bits = v * 4096 + w * 64 + x;
            three.len() == 2 && (three[0] * 256 + three[1]) * 4 <= bits < (three[0] * 256 + three[1]
                + 1) * 4
        }),
{
    lemma_symbol_value(v);
    lemma_symbol_value(w);
    lemma_symbol_value(x);
    lemma_left_bits(v, w, x);
    let k = seq![symbol(v), symbol(w), symbol(x)];
    lemma_nothing_to_take(k);
    assert(value_of(k[0]) == Some(v) && value_of(k[1]) == Some(w) && value_of(k[2]) == Some(x));
}

/// One byte or two at the end are written with their spare bits at zero and with padding
/// behind them, so that the text is as long as for three.
pub proof fn law_short_groups_are_padded(a: u8, b: u8)
    ensures
        ({
            let one = encoded(seq![a]);
            let two = encoded(seq![a, b]);
            &&& one.len() == 4 && one[2] == '=' && one[3] == '='
            &&& value_of(one[0])->0 * 64 + value_of(one[1])->0 == a * 16
            &&& two.len() == 4 && two[3] == '=' && two[2] != '='
            &&& value_of(two[0])->0 * 4096 + value_of(two[1])->0 * 64 + value_of(two[2])->0 == (a
                * 256 + b) * 4
        }),
{
    let n = triple(a as int, 0, 0);
    lemma_sextets(a as int, 0, 0);
    lemma_symbol_value(n / 262144);
    lemma_symbol_value(n / 4096 % 64);
    let m = triple(a as int, b as int, 0);
    lemma_sextets(a as int, b as int, 0);
    lemma_symbol_value(m / 262144);
    lemma_symbol_value(m / 4096 % 64);
    lemma_symbol_value(m / 64 % 64);
}

} // verus!
