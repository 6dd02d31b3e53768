//! The text that asks a terminal to put something on the clipboard.
use crate::text::owned;
use vstd::prelude::*;

verus! {

/// The character that stands for six bits.
pub open spec fn symbol(v: int) -> char {
    if v < 26 {
        (65 + v) as char
    } else if v < 52 {
        (97 + (v - 26)) as char
    } else if v < 62 {
        (48 + (v - 52)) as char
    } else if v == 62 {
        '+'
    } else {
        '/'
    }
}

/// A byte, or zero past the end.
pub open spec fn byte_at(bytes: Seq<u8>, i: int) -> int {
    if i < bytes.len() {
        bytes[i] as int
    } else {
        0
    }
}

/// Three bytes as one number.
pub open spec fn group(bytes: Seq<u8>, at: int) -> int {
    byte_at(bytes, at) * 65536 + byte_at(bytes, at + 1) * 256 + byte_at(bytes, at + 2)
}

/// The four characters of the group of three bytes that starts at `at`: six bits
/// each, from the top, and padding where the bytes ran out.
pub open spec fn quad(bytes: Seq<u8>, at: int) -> Seq<char> {
    let n = group(bytes, at);
    seq![
        symbol(n / 262144 % 64),
        symbol(n / 4096 % 64),
        if at + 1 < bytes.len() {
            symbol(n / 64 % 64)
        } else {
            '='
        },
        if at + 2 < bytes.len() {
            symbol(n % 64)
        } else {
            '='
        },
    ]
}

/// Bytes in the standard base 64 alphabet, padded.
pub open spec fn encoded(bytes: Seq<u8>, at: int) -> Seq<char>
    decreases bytes.len() + 3 - at,
{
    if at < 0 || at >= bytes.len() {
        Seq::empty()
    } else {
        quad(bytes, at) + encoded(bytes, at + 3)
    }
}

fn symbol_of(v: u32) -> (ch: char)
    requires
        v < 64,
    ensures
        ch == symbol(v as int),
{
    if v < 26 {
        (65 + v) as u8 as char
    } else if v < 52 {
        (97 + (v - 26)) as u8 as char
    } else if v < 62 {
        (48 + (v - 52)) as u8 as char
    } else if v == 62 {
        '+'
    } else {
        '/'
    }
}

/// Bytes in the standard base 64 alphabet, padded.
pub fn base64(bytes: &[u8]) -> (text: String)
    ensures
        text@ == encoded(bytes@, 0),
{
    let mut out = String::new();
    let mut at: usize = 0;
    proof {
        assert(out@ + encoded(bytes@, 0) == encoded(bytes@, 0));
    }
    while at < bytes.len()
        invariant
            0 <= at,
            out@ + encoded(bytes@, at as int) == encoded(bytes@, 0),
        decreases bytes@.len() - at,
    {
        let left: usize = bytes.len() - at;
        let b0: u32 = bytes[at] as u32;
        let b1: u32 = if left > 1 {
            bytes[at + 1] as u32
        } else {
            0
        };
        let b2: u32 = if left > 2 {
            bytes[at + 2] as u32
        } else {
            0
        };
        let n: u32 = b0 * 65536 + b1 * 256 + b2;
        let ghost before = out@;
        out.push(symbol_of(n / 262144 % 64));
        out.push(symbol_of(n / 4096 % 64));
        if left > 1 {
            out.push(symbol_of(n / 64 % 64));
        } else {
            out.push('=');
        }
        if left > 2 {
            out.push(symbol_of(n % 64));
        } else {
            out.push('=');
        }
        proof {
            assert(out@ == before + quad(bytes@, at as int));
            assert(before + (quad(bytes@, at as int) + encoded(bytes@, at + 3)) == out@ + encoded(
                bytes@,
                at + 3,
            ));
        }
        if left <= 3 {
            proof {
                assert(encoded(bytes@, at + 3) == Seq::<char>::empty());
                assert(out@ + Seq::<char>::empty() == out@);
            }
            return out;
        }
        at += 3;
    }
    proof {
        assert(out@ + Seq::<char>::empty() == out@);
    }
    out
}

/// The escape sequence with which a terminal is asked to take a text as its
/// clipboard, which reaches the local machine over a remote connection too.
pub fn copy(text: &str) -> (sequence: String)
    ensures
        sequence@ == "\u{1b}]52;c;"@ + encoded(vstd::utf8::encode_utf8(text@), 0) + "\u{7}"@,
{
    let mut sequence = owned("\u{1b}]52;c;");
    let encoded_text = base64(text.as_bytes());
    sequence.push_str(encoded_text.as_str());
    sequence.push_str("\u{7}");
    sequence
}

// ---- Laws ----------------------------------------------------------------

/// Base 64 takes four characters for every three bytes begun.
pub proof fn encoded_length(bytes: Seq<u8>, at: int)
    requires
        0 <= at,
    ensures
        at < bytes.len() ==> encoded(bytes, at).len() == (bytes.len() - at + 2) / 3 * 4,
        at >= bytes.len() ==> encoded(bytes, at).len() == 0,
    decreases bytes.len() + 3 - at,
{
    if at < bytes.len() {
        encoded_length(bytes, at + 3);
    }
}

proof fn symbols_differ(a: int, b: int)
    requires
        0 <= a < 64,
        0 <= b < 64,
        symbol(a) == symbol(b),
    ensures
        a == b,
{
}

proof fn symbol_is_no_padding(a: int)
    requires
        0 <= a < 64,
    ensures
        symbol(a) != '=',
{
}

/// Where the bits of three bytes go.
proof fn sextets(b0: int, b1: int, b2: int)
    requires
        0 <= b0 < 256,
        0 <= b1 < 256,
        0 <= b2 < 256,
    ensures
        ({
            let n = b0 * 65536 + b1 * 256 + b2;
            &&& n / 262144 % 64 == b0 / 4
            &&& n / 4096 % 64 == b0 % 4 * 16 + b1 / 16
            &&& n / 64 % 64 == b1 % 16 * 4 + b2 / 64
            &&& n % 64 == b2 % 64
        }),
{
    let n = b0 * 65536 + b1 * 256 + b2;
    assert(n / 262144 == b0 / 4);
    assert(n / 4096 == b0 * 16 + b1 / 16);
    assert(n / 64 == b0 * 1024 + b1 * 4 + b2 / 64);
    assert(b0 == b0 / 4 * 4 + b0 % 4);
    assert(b1 == b1 / 16 * 16 + b1 % 16);
    assert(n / 4096 % 64 == b0 % 4 * 16 + b1 / 16);
    assert(n / 64 % 64 == b1 % 16 * 4 + b2 / 64);
}

/// Six bits at a time fix the bytes they were taken from.
proof fn bits_fix_bytes(a: (int, int, int), b: (int, int, int))
    requires
        0 <= a.0 < 256,
        0 <= a.1 < 256,
        0 <= a.2 < 256,
        0 <= b.0 < 256,
        0 <= b.1 < 256,
        0 <= b.2 < 256,
    ensures
        ({
            let na = a.0 * 65536 + a.1 * 256 + a.2;
            let nb = b.0 * 65536 + b.1 * 256 + b.2;
            let same1 = na / 262144 % 64 == nb / 262144 % 64 && na / 4096 % 64 == nb / 4096 % 64;
            &&& same1 ==> a.0 == b.0
            &&& same1 && na / 64 % 64 == nb / 64 % 64 ==> a.1 == b.1
            &&& same1 && na / 64 % 64 == nb / 64 % 64 && na % 64 == nb % 64 ==> a.2 == b.2
        }),
{
    sextets(a.0, a.1, a.2);
    sextets(b.0, b.1, b.2);
}

/// The bytes of one group follow from its four characters.
proof fn quad_fixes_bytes(a: Seq<u8>, b: Seq<u8>, at: int)
    requires
        0 <= at < a.len(),
        at < b.len(),
        quad(a, at) == quad(b, at),
    ensures
        a[at] == b[at],
        (at + 1 < a.len()) == (at + 1 < b.len()),
        (at + 2 < a.len()) == (at + 2 < b.len()),
        at + 1 < a.len() ==> a[at + 1] == b[at + 1],
        at + 2 < a.len() ==> a[at + 2] == b[at + 2],
{
    let qa = quad(a, at);
    let qb = quad(b, at);
    let na = group(a, at);
    let nb = group(b, at);
    assert(qa[0] == qb[0] && qa[1] == qb[1] && qa[2] == qb[2] && qa[3] == qb[3]);
    symbols_differ(na / 262144 % 64, nb / 262144 % 64);
    symbols_differ(na / 4096 % 64, nb / 4096 % 64);
    symbol_is_no_padding(na / 64 % 64);
    symbol_is_no_padding(nb / 64 % 64);
    symbol_is_no_padding(na % 64);
    symbol_is_no_padding(nb % 64);
    if at + 1 < a.len() {
        symbols_differ(na / 64 % 64, nb / 64 % 64);
    }
    if at + 2 < a.len() {
        symbols_differ(na % 64, nb % 64);
    }
    bits_fix_bytes(
        (byte_at(a, at), byte_at(a, at + 1), byte_at(a, at + 2)),
        (byte_at(b, at), byte_at(b, at + 1), byte_at(b, at + 2)),
    );
}

/// Two texts of bytes that are encoded alike are the same: nothing is lost on
/// the way to the clipboard.
pub proof fn encoding_loses_nothing(a: Seq<u8>, b: Seq<u8>, at: int)
    requires
        0 <= at <= a.len(),
        at <= b.len(),
        encoded(a, at) == encoded(b, at),
    ensures
        a.skip(at) == b.skip(at),
    decreases a.len() - at,
{
    encoded_length(a, at);
    encoded_length(b, at);
    if at >= a.len() || at >= b.len() {
        assert(a.skip(at) == b.skip(at));
    } else {
        assert(encoded(a, at).take(4) == quad(a, at));
        assert(encoded(b, at).take(4) == quad(b, at));
        assert(encoded(a, at).skip(4) == encoded(a, at + 3));
        assert(encoded(b, at).skip(4) == encoded(b, at + 3));
        quad_fixes_bytes(a, b, at);
        if at + 2 < a.len() {
            encoding_loses_nothing(a, b, at + 3);
            assert(a.skip(at + 3).len() == b.skip(at + 3).len());
            assert forall|i: int| 0 <= i < a.len() - at implies a.skip(at)[i] == b.skip(at)[i] by {
                if i >= 3 {
                    assert(a.skip(at)[i] == a.skip(at + 3)[i - 3]);
                    assert(b.skip(at)[i] == b.skip(at + 3)[i - 3]);
                }
            }
        }
        assert(a.skip(at) == b.skip(at));
    }
}

/// Where a character stands in the standard base 64 alphabet: the capital letters, the
/// small ones, the digits, the plus sign and the slash.
pub open spec fn sextet(ch: char) -> int {
    if 'A' <= ch && ch <= 'Z' {
        ch as int - 'A' as int
    } else if 'a' <= ch && ch <= 'z' {
        26 + (ch as int - 'a' as int)
    } else if '0' <= ch && ch <= '9' {
        52 + (ch as int - '0' as int)
    } else if ch == '+' {
        62
    } else {
        63
    }
}

proof fn a_symbol_is_its_sextet(v: int)
    requires
        0 <= v < 64,
    ensures
        sextet(symbol(v)) == v,
        symbol(v) != '=',
{
}

/// The characters of a group are where the group is.
proof fn quads_in_place(bytes: Seq<u8>, at: int, i: int)
    requires
        0 <= at <= i < bytes.len(),
        (i - at) % 3 == 0,
    ensures
        ({
            let p = (i - at) / 3 * 4;
            &&& p + 4 <= encoded(bytes, at).len()
            &&& encoded(bytes, at).subrange(p, p + 4) == quad(bytes, i)
        }),
    decreases i - at,
{
    let rest = encoded(bytes, at + 3);
    let all = encoded(bytes, at);
    assert(all == quad(bytes, at) + rest);
    if i == at {
        assert(all.subrange(0, 4) =~= quad(bytes, at));
    } else {
        quads_in_place(bytes, at + 3, i);
        let p = (i - at) / 3 * 4;
        let q = (i - at - 3) / 3 * 4;
        assert(p == q + 4);
        assert(all.subrange(p, p + 4) =~= rest.subrange(q, q + 4));
    }
}

/// Read by the standard alphabet, six bits a character, what is encoded is every byte
/// again in its place: the top six bits of the first byte of three, and so on to the
/// last six of the third.
pub proof fn the_encoding_reads_back(bytes: Seq<u8>, i: int)
    requires
        0 <= i < bytes.len(),
    ensures
        ({
            let all = encoded(bytes, 0);
            let p = i / 3 * 4;
            &&& p + 4 <= all.len()
            &&& i % 3 == 0 ==> bytes[i] == sextet(all[p]) * 4 + sextet(all[p + 1]) / 16
            &&& i % 3 == 1 ==> bytes[i] == sextet(all[p + 1]) % 16 * 16 + sextet(all[p + 2]) / 4
            &&& i % 3 == 2 ==> bytes[i] == sextet(all[p + 2]) % 4 * 64 + sextet(all[p + 3])
            &&& all[p] != '=' && all[p + 1] != '='
            &&& all[p + 2] == '=' <==> i / 3 * 3 + 1 >= bytes.len()
            &&& all[p + 3] == '=' <==> i / 3 * 3 + 2 >= bytes.len()
        }),
{
    let at = i / 3 * 3;
    let all = encoded(bytes, 0);
    let p = i / 3 * 4;
    assert(at % 3 == 0);
    assert(at / 3 == i / 3);
    quads_in_place(bytes, 0, at);
    let four = quad(bytes, at);
    assert(all.subrange(p, p + 4) == four);
    assert(all[p] == four[0] && all[p + 1] == four[1] && all[p + 2] == four[2] && all[p + 3]
        == four[3]) by {
        assert(all.subrange(p, p + 4)[0] == all[p]);
        assert(all.subrange(p, p + 4)[1] == all[p + 1]);
        assert(all.subrange(p, p + 4)[2] == all[p + 2]);
        assert(all.subrange(p, p + 4)[3] == all[p + 3]);
    }
    let a = byte_at(bytes, at);
    let b = byte_at(bytes, at + 1);
    let c = byte_at(bytes, at + 2);
    sextets(a, b, c);
    let n = group(bytes, at);
    a_symbol_is_its_sextet(n / 262144 % 64);
    a_symbol_is_its_sextet(n / 4096 % 64);
    a_symbol_is_its_sextet(n / 64 % 64);
    a_symbol_is_its_sextet(n % 64);
}

} // verus!
