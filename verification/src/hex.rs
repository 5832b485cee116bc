//! Hexadecimal and decimal digits: reading byte pairs and rendering numbers.

use vstd::prelude::*;

verus! {

/// The value of an ASCII hexadecimal digit (either case), if `b` is one.
pub open spec fn hex_digit_value(b: u8) -> Option<u8> {
    if ('0' as u8) <= b <= ('9' as u8) {
        Some((b - ('0' as u8)) as u8)
    } else if ('a' as u8) <= b <= ('f' as u8) {
        Some((b - ('a' as u8) + 10) as u8)
    } else if ('A' as u8) <= b <= ('F' as u8) {
        Some((b - ('A' as u8) + 10) as u8)
    } else {
        None
    }
}

/// The byte that two characters of text denote when read as a base-16
/// number that must fit in a byte.  As with `u8::from_str_radix`, a leading
/// `+` sign is accepted, so `+F` reads as 15.
pub open spec fn pair_value(hi: u8, lo: u8) -> Option<u8> {
    if hi == ('+' as u8) {
        hex_digit_value(lo)
    } else {
        match (hex_digit_value(hi), hex_digit_value(lo)) {
            (Some(h), Some(l)) => Some((h * 16 + l) as u8),
            _ => None,
        }
    }
}

/// The bytes that a text of hexadecimal pairs denotes: `None` when its
/// length is odd or one of its pairs is not a number.
pub open spec fn hex_decode(s: Seq<u8>) -> Option<Seq<u8>>
    decreases s.len(),
{
    if s.len() == 0 {
        Some(seq![])
    } else if s.len() == 1 {
        None
    } else {
        match (pair_value(s[0], s[1]), hex_decode(s.subrange(2, s.len() as int))) {
            (Some(b), Some(rest)) => Some(seq![b] + rest),
            _ => None,
        }
    }
}

/// `head` put in front of the bytes that `rest` holds, if it holds any.
pub open spec fn prepend(head: Seq<u8>, rest: Option<Seq<u8>>) -> Option<Seq<u8>> {
    match rest {
        Some(r) => Some(head + r),
        None => None,
    }
}

/// The upper-case hexadecimal digit of `d` (for `d < 16`).
pub open spec fn hex_char(d: nat) -> u8 {
    if d < 10 {
        (('0' as u8) + d) as u8
    } else {
        (('A' as u8) + d - 10) as u8
    }
}

/// The last `width` upper-case hexadecimal digits of `n`, zero-padded.
pub open spec fn hex_fixed(n: nat, width: nat) -> Seq<u8>
    decreases width,
{
    if width == 0 {
        seq![]
    } else {
        hex_fixed(n / 16, (width - 1) as nat).push(hex_char(n % 16))
    }
}

/// The decimal digits of `n`, without leading zeros.
pub open spec fn decimal(n: nat) -> Seq<u8>
    decreases n,
{
    if n < 10 {
        seq![(('0' as u8) + n) as u8]
    } else {
        decimal(n / 10).push((('0' as u8) + n % 10) as u8)
    }
}

/// Reads one hexadecimal digit.
pub fn digit_value(b: u8) -> (r: Option<u8>)
    ensures
        r == hex_digit_value(b),
{
    if ('0' as u8) <= b && b <= ('9' as u8) {
        Some(b - ('0' as u8))
    } else if ('a' as u8) <= b && b <= ('f' as u8) {
        Some(b - ('a' as u8) + 10)
    } else if ('A' as u8) <= b && b <= ('F' as u8) {
        Some(b - ('A' as u8) + 10)
    } else {
        None
    }
}

/// Reads two characters as one byte (see [`pair_value`]).
pub fn read_pair(hi: u8, lo: u8) -> (r: Option<u8>)
    ensures
        r == pair_value(hi, lo),
{
    if hi == ('+' as u8) {
        digit_value(lo)
    } else {
        match (digit_value(hi), digit_value(lo)) {
            (Some(h), Some(l)) => Some(h * 16 + l),
            _ => None,
        }
    }
}

/// Reads a text of hexadecimal pairs into the bytes it denotes; `Err` when
/// the text has odd length or holds a pair that is not a number.
pub fn bytes_from_hex(line: &[u8]) -> (r: Result<Vec<u8>, ()>)
    ensures
        match r {
            Ok(v) => hex_decode(line@) == Some(v@),
            Err(_) => hex_decode(line@) is None,
        },
{
    let mut out: Vec<u8> = Vec::new();
    let mut i: usize = 0;
    assert(line@.subrange(0, line@.len() as int) =~= line@);
    assert(out@ + line@ =~= line@);
    while i < line.len()
        invariant
            i <= line.len(),
            hex_decode(line@) == prepend(out@, hex_decode(line@.subrange(i as int, line@.len() as int))),
        decreases line.len() - i,
    {
        let ghost rest = line@.subrange(i as int, line@.len() as int);
        if line.len() - i < 2 {
            return Err(());
        }
        assert(rest.subrange(2, rest.len() as int) =~= line@.subrange(i + 2, line@.len() as int));
        match read_pair(line[i], line[i + 1]) {
            Some(b) => {
                let ghost before = out@;
                out.push(b);
                proof {
                    match hex_decode(line@.subrange(i + 2, line@.len() as int)) {
                        Some(r) => {
                            assert(before + (seq![b] + r) =~= out@ + r);
                        },
                        None => {},
                    }
                }
                i = i + 2;
            },
            None => {
                return Err(());
            },
        }
    }
    assert(line@.subrange(i as int, line@.len() as int) =~= Seq::<u8>::empty());
    assert(out@ + Seq::<u8>::empty() =~= out@);
    Ok(out)
}

/// Appends the last `width` upper-case hexadecimal digits of `n`.
pub fn push_hex(out: &mut Vec<u8>, n: u32, width: usize)
    ensures
        final(out)@ == old(out)@ + hex_fixed(n as nat, width as nat),
    decreases width,
{
    if width == 0 {
        assert(old(out)@ + Seq::<u8>::empty() =~= old(out)@);
    } else {
        push_hex(out, n / 16, width - 1);
        let d: u32 = n % 16;
        let c: u8 = if d < 10 {
            ('0' as u8) + (d as u8)
        } else {
            ('A' as u8) + (d as u8) - 10
        };
        out.push(c);
        assert(out@ =~= old(out)@ + hex_fixed(n as nat, width as nat));
    }
}

/// Appends the decimal digits of `n`.
pub fn push_decimal(out: &mut Vec<u8>, n: usize)
    ensures
        final(out)@ == old(out)@ + decimal(n as nat),
    decreases n,
{
    if n < 10 {
        out.push(('0' as u8) + (n as u8));
        assert(out@ =~= old(out)@ + decimal(n as nat));
    } else {
        push_decimal(out, n / 10);
        out.push(('0' as u8) + ((n % 10) as u8));
        assert(out@ =~= old(out)@ + decimal(n as nat));
    }
}


/// The hexadecimal text of `v`: two upper-case digits per byte.
pub open spec fn hex_text(v: Seq<u8>) -> Seq<u8>
    decreases v.len(),
{
    if v.len() == 0 {
        seq![]
    } else {
        hex_fixed(v[0] as nat, 2) + hex_text(v.drop_first())
    }
}

/// A digit rendered by [`hex_char`] reads back as its value.
proof fn lemma_hex_char_value(d: nat)
    requires
        d < 16,
    ensures
        hex_digit_value(hex_char(d)) == Some(d as u8),
{
}

/// The two digits that rows show for a byte read back as that byte.
pub proof fn law_pair_roundtrip(b: u8)
    ensures
        hex_fixed(b as nat, 2).len() == 2,
        pair_value(hex_fixed(b as nat, 2)[0], hex_fixed(b as nat, 2)[1]) == Some(b),
{
    reveal_with_fuel(hex_fixed, 3);
    let hi = (b as nat / 16) % 16;
    let lo = b as nat % 16;
    assert(hi == b as nat / 16);
    lemma_hex_char_value(hi);
    lemma_hex_char_value(lo);
    assert(hex_fixed(b as nat, 2) =~= seq![hex_char(hi), hex_char(lo)]);
    assert(hex_char(hi) != ('+' as u8));
    assert(hi * 16 + lo == b as nat);
}

/// Reading back the hexadecimal text of any bytes gives those bytes: what
/// [`bytes_from_hex`] reads undoes how bytes are rendered.
pub proof fn law_hex_roundtrip(v: Seq<u8>)
    ensures
        hex_decode(hex_text(v)) == Some(v),
    decreases v.len(),
{
    if v.len() > 0 {
        law_pair_roundtrip(v[0]);
        law_hex_roundtrip(v.drop_first());
        let t = hex_text(v);
        assert(t.subrange(2, t.len() as int) =~= hex_text(v.drop_first()));
        assert(seq![v[0]] + v.drop_first() =~= v);
    } else {
        assert(hex_text(v) =~= Seq::<u8>::empty());
        assert(v =~= Seq::<u8>::empty());
    }
}
} // verus!
