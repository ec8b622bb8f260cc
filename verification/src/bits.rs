//! Bit-scan primitives: binary-search locators for the most and least
//! significant set bit of a 64-bit word.

use vstd::prelude::*;

verus! {

/// Zero-based index of the highest set bit, or `None` for zero.
///
/// `x >> b == 1` pins the index exactly: bit `b` is set and no higher
/// bit is.
pub fn msb(x: u64) -> (r: Option<u8>)
    ensures
        (r is None) <==> x == 0,
        r matches Some(b) ==> b < 64 && x >> (b as u64) == 1,
{
    if x == 0 {
        return None;
    }

    let mut b: u8 = 0;
    let mut y: u64 = x;
    if y & 0xffffffff00000000 != 0 {
        proof {
            assert(y >> 32 == x >> 32 && y >> 32 != 0 && y >> 32 < 0x100000000) by (bit_vector)
                requires
                    y == x && y & 0xffffffff00000000 != 0,
            ;
        }
        b += 32;
        y >>= 32;
    } else {
        proof {
            assert(y < 0x100000000) by (bit_vector)
                requires
                    y & 0xffffffff00000000 == 0,
            ;
        }
    }
    assert(y == x >> (b as u64) && y != 0 && y < 0x100000000 && b <= 32 && b % 32 == 0)
        by (bit_vector)
        requires
            (b == 0 && y == x && x != 0 && y < 0x100000000) || (b == 32 && y == x >> 32 && y != 0
                && y < 0x100000000),
    ;
    if y & 0x00000000ffff0000 != 0 {
        proof {
            assert(y >> 16 == x >> ((b + 16) as u64) && y >> 16 != 0 && y >> 16 < 0x10000)
                by (bit_vector)
                requires
                    y == x >> (b as u64) && b <= 32 && y & 0xffff0000 != 0 && y < 0x100000000,
            ;
        }
        b += 16;
        y >>= 16;
    } else {
        proof {
            assert(y < 0x10000) by (bit_vector)
                requires
                    y & 0xffff0000 == 0 && y < 0x100000000,
            ;
        }
    }
    assert(y == x >> (b as u64) && y != 0 && y < 0x10000 && b <= 48);
    if y & 0x000000000000ff00 != 0 {
        proof {
            assert(y >> 8 == x >> ((b + 8) as u64) && y >> 8 != 0 && y >> 8 < 0x100) by (bit_vector)
                requires
                    y == x >> (b as u64) && b <= 48 && y & 0xff00 != 0 && y < 0x10000,
            ;
        }
        b += 8;
        y >>= 8;
    } else {
        proof {
            assert(y < 0x100) by (bit_vector)
                requires
                    y & 0xff00 == 0 && y < 0x10000,
            ;
        }
    }
    assert(y == x >> (b as u64) && y != 0 && y < 0x100 && b <= 56);
    if y & 0x00000000000000f0 != 0 {
        proof {
            assert(y >> 4 == x >> ((b + 4) as u64) && y >> 4 != 0 && y >> 4 < 0x10) by (bit_vector)
                requires
                    y == x >> (b as u64) && b <= 56 && y & 0xf0 != 0 && y < 0x100,
            ;
        }
        b += 4;
        y >>= 4;
    } else {
        proof {
            assert(y < 0x10) by (bit_vector)
                requires
                    y & 0xf0 == 0 && y < 0x100,
            ;
        }
    }
    assert(y == x >> (b as u64) && y != 0 && y < 0x10 && b <= 60);
    if y & 0x000000000000000c != 0 {
        proof {
            assert(y >> 2 == x >> ((b + 2) as u64) && y >> 2 != 0 && y >> 2 < 4) by (bit_vector)
                requires
                    y == x >> (b as u64) && b <= 60 && y & 0xc != 0 && y < 0x10,
            ;
        }
        b += 2;
        y >>= 2;
    } else {
        proof {
            assert(y < 4) by (bit_vector)
                requires
                    y & 0xc == 0 && y < 0x10,
            ;
        }
    }
    assert(y == x >> (b as u64) && y != 0 && y < 4 && b <= 62);
    if y & 0x0000000000000002 != 0 {
        proof {
            assert(x >> ((b + 1) as u64) == 1) by (bit_vector)
                requires
                    y == x >> (b as u64) && b <= 62 && y & 2 != 0 && y < 4,
            ;
        }
        b += 1;
        return Some(b);
    }
    proof {
        assert(x >> (b as u64) == 1) by (bit_vector)
            requires
                y == x >> (b as u64) && y != 0 && y < 4 && y & 2 == 0,
        ;
    }
    Some(b)
}

/// Zero-based index of the lowest set bit, or `None` for zero.
///
/// Bit `b` is set, and shifting the word right by `b` and back loses
/// nothing, so every bit below `b` is clear.
pub fn lsb(x: u64) -> (r: Option<u8>)
    ensures
        (r is None) <==> x == 0,
        r matches Some(b) ==> b < 64 && (x >> (b as u64)) & 1 == 1 && (x >> (b as u64)) << (
        b as u64) == x,
{
    if x == 0 {
        return None;
    }

    let mut b: u8 = 0;
    let mut y: u64 = x;
    if y & 0x00000000ffffffff == 0 {
        proof {
            assert((y >> 32) << 32 == x && (y >> 32) & 0xffffffff != 0) by (bit_vector)
                requires
                    y == x && y & 0xffffffff == 0 && y != 0,
            ;
        }
        b += 32;
        y >>= 32;
    }
    assert(y << (b as u64) == x && y & 0xffffffff != 0 && b <= 32 && b % 32 == 0) by (bit_vector)
        requires
            (b == 0 && y == x && x != 0 && y & 0xffffffff != 0) || (b == 32 && (y << 32) == x && y
                & 0xffffffff != 0),
    ;
    if y & 0x000000000000ffff == 0 {
        proof {
            assert((y >> 16) << ((b + 16) as u64) == x && (y >> 16) & 0xffff != 0) by (bit_vector)
                requires
                    y << (b as u64) == x && b <= 32 && y & 0xffffffff != 0 && y & 0xffff == 0,
            ;
        }
        b += 16;
        y >>= 16;
    }
    assert(y << (b as u64) == x && y & 0xffff != 0 && b <= 48);
    if y & 0x00000000000000ff == 0 {
        proof {
            assert((y >> 8) << ((b + 8) as u64) == x && (y >> 8) & 0xff != 0) by (bit_vector)
                requires
                    y << (b as u64) == x && b <= 48 && y & 0xffff != 0 && y & 0xff == 0,
            ;
        }
        b += 8;
        y >>= 8;
    }
    assert(y << (b as u64) == x && y & 0xff != 0 && b <= 56);
    if y & 0x000000000000000f == 0 {
        proof {
            assert((y >> 4) << ((b + 4) as u64) == x && (y >> 4) & 0xf != 0) by (bit_vector)
                requires
                    y << (b as u64) == x && b <= 56 && y & 0xff != 0 && y & 0xf == 0,
            ;
        }
        b += 4;
        y >>= 4;
    }
    assert(y << (b as u64) == x && y & 0xf != 0 && b <= 60);
    if y & 0x0000000000000003 == 0 {
        proof {
            assert((y >> 2) << ((b + 2) as u64) == x && (y >> 2) & 3 != 0) by (bit_vector)
                requires
                    y << (b as u64) == x && b <= 60 && y & 0xf != 0 && y & 3 == 0,
            ;
        }
        b += 2;
        y >>= 2;
    }
    assert(y << (b as u64) == x && y & 3 != 0 && b <= 62);
    if y & 0x0000000000000001 == 0 {
        proof {
            assert((y >> 1) << ((b + 1) as u64) == x && (y >> 1) & 1 != 0) by (bit_vector)
                requires
                    y << (b as u64) == x && b <= 62 && y & 3 != 0 && y & 1 == 0,
            ;
        }
        b += 1;
        y >>= 1;
    }
    proof {
        assert((x >> (b as u64)) & 1 == 1 && (x >> (b as u64)) << (b as u64) == x) by (bit_vector)
            requires
                y << (b as u64) == x && b <= 63 && y & 1 != 0,
        ;
    }
    Some(b)
}

} // verus!
