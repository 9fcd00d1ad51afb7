//! The canonical textual form of a 128-bit identifier: 32 hexadecimal
//! digits in lowercase, hyphenated as 8-4-4-4-12. Formatting and parsing
//! are verified against one spec of the layout, and parsing accepts hex
//! digits of either case, so a formatted identifier always parses back to
//! the same value.

use vstd::prelude::*;

verus! {

/// The lowercase hex digit character for a value below 16.
pub open spec fn hex_char_of(v: u128) -> char
    recommends
        v < 16,
{
    if v < 10 {
        (((v + 48) as u8) as char)
    } else {
        (((v + 87) as u8) as char)
    }
}

/// Nibble `i` of the value, counting from the most significant.
pub open spec fn nibble(bits: u128, i: int) -> u128
    recommends
        0 <= i < 32,
{
    (bits >> (((31 - i) * 4) as u128)) & 0xf
}

/// Whether text position `p` carries a hyphen in the canonical layout.
pub open spec fn is_hyphen_pos(p: int) -> bool {
    p == 8 || p == 13 || p == 18 || p == 23
}

/// How many hyphens precede text position `p` in the canonical layout.
pub open spec fn hyphens_before(p: int) -> int {
    (if p > 8 {
        1int
    } else {
        0int
    }) + (if p > 13 {
        1int
    } else {
        0int
    }) + (if p > 18 {
        1int
    } else {
        0int
    }) + (if p > 23 {
        1int
    } else {
        0int
    })
}

/// The character at position `p` of the canonical text of `bits`.
pub open spec fn uuid_char_at(bits: u128, p: int) -> char {
    if is_hyphen_pos(p) {
        '-'
    } else {
        hex_char_of(nibble(bits, p - hyphens_before(p)))
    }
}

/// The canonical hyphenated lowercase text of the 128-bit value.
pub open spec fn uuid_text_of(bits: u128) -> Seq<char> {
    Seq::new(36, |p: int| uuid_char_at(bits, p))
}

/// An ASCII hex digit of either case.
pub open spec fn is_hex_digit(c: char) -> bool {
    ('0' <= c && c <= '9') || ('a' <= c && c <= 'f') || ('A' <= c && c <= 'F')
}

/// The value of a hex digit of either case.
pub open spec fn hex_val(c: char) -> int
    recommends
        is_hex_digit(c),
{
    if '0' <= c && c <= '9' {
        (c as int) - 48
    } else if 'a' <= c && c <= 'f' {
        (c as int) - 87
    } else {
        (c as int) - 55
    }
}

/// Whether position `p` of the text carries what the canonical layout puts
/// there: a hyphen at the four hyphen positions, a hex digit elsewhere.
pub open spec fn uuid_char_ok(s: Seq<char>, p: int) -> bool {
    if is_hyphen_pos(p) {
        s[p] == '-'
    } else {
        is_hex_digit(s[p])
    }
}

/// Whether `s` is a canonical hyphenated UUID text, with hex digits of
/// either case.
pub open spec fn is_uuid_text(s: Seq<char>) -> bool {
    s.len() == 36 && forall|p: int| 0 <= p < 36 ==> #[trigger] uuid_char_ok(s, p)
}

/// The text position of nibble `i`.
pub open spec fn nibble_pos(i: int) -> int {
    i + (if i >= 8 {
        1int
    } else {
        0int
    }) + (if i >= 12 {
        1int
    } else {
        0int
    }) + (if i >= 16 {
        1int
    } else {
        0int
    }) + (if i >= 20 {
        1int
    } else {
        0int
    })
}

/// The value of the first `n` nibbles of the text, most significant first.
pub open spec fn uuid_prefix_val(s: Seq<char>, n: int) -> u128
    decreases n,
{
    if n <= 0 {
        0
    } else {
        (uuid_prefix_val(s, n - 1) << 4u128) | (hex_val(s[nibble_pos(n - 1)]) as u128)
    }
}

/// The 128-bit value that a canonical text denotes.
pub open spec fn uuid_val_of(s: Seq<char>) -> u128 {
    uuid_prefix_val(s, 32)
}

/// One-character text for each hex digit value.
fn hex_str(v: u8) -> (s: &'static str)
    requires
        v < 16,
    ensures
        s@.len() == 1,
        s@[0] == hex_char_of(v as u128),
{
    let c: &'static str = match v {
        0 => "0",
        1 => "1",
        2 => "2",
        3 => "3",
        4 => "4",
        5 => "5",
        6 => "6",
        7 => "7",
        8 => "8",
        9 => "9",
        10 => "a",
        11 => "b",
        12 => "c",
        13 => "d",
        14 => "e",
        _ => "f",
    };
    proof {
        reveal_strlit("0");
        reveal_strlit("1");
        reveal_strlit("2");
        reveal_strlit("3");
        reveal_strlit("4");
        reveal_strlit("5");
        reveal_strlit("6");
        reveal_strlit("7");
        reveal_strlit("8");
        reveal_strlit("9");
        reveal_strlit("a");
        reveal_strlit("b");
        reveal_strlit("c");
        reveal_strlit("d");
        reveal_strlit("e");
        reveal_strlit("f");
    }
    c
}

/// Formats the value as canonical hyphenated lowercase UUID text.
pub fn format_uuid(bits: u128) -> (s: String)
    ensures
        s@ == uuid_text_of(bits),
{
    let mut out = String::new();
    let mut p: usize = 0;
    while p < 36
        invariant
            p <= 36,
            out@ =~= uuid_text_of(bits).take(p as int),
        decreases 36 - p,
    {
        if p == 8 || p == 13 || p == 18 || p == 23 {
            out.append("-");
            proof {
                reveal_strlit("-");
                assert(uuid_char_at(bits, p as int) == '-');
            }
        } else {
            let hb: usize = if p > 23 {
                4
            } else if p > 18 {
                3
            } else if p > 13 {
                2
            } else if p > 8 {
                1
            } else {
                0
            };
            let i = p - hb;
            let sh = ((31 - i) * 4) as u128;
            let v = ((bits >> sh) & 0xf) as u8;
            proof {
                assert(hb as int == hyphens_before(p as int));
                assert(((bits >> sh) & 0xf) < 16) by (bit_vector);
                assert(v as u128 == nibble(bits, i as int));
                assert(uuid_char_at(bits, p as int) == hex_char_of(v as u128));
            }
            out.append(hex_str(v));
        }
        p += 1;
        proof {
            assert(out@ =~= uuid_text_of(bits).take(p as int));
        }
    }
    proof {
        assert(uuid_text_of(bits).take(36) =~= uuid_text_of(bits));
    }
    out
}

/// The value of an ASCII hex digit of either case, if the character is one.
fn hex_digit_val(c: char) -> (r: Option<u8>)
    ensures
        match r {
            Some(v) => is_hex_digit(c) && v as int == hex_val(c) && v < 16,
            None => !is_hex_digit(c),
        },
{
    let u = c as u32;
    if 48 <= u && u <= 57 {
        Some((u - 48) as u8)
    } else if 97 <= u && u <= 102 {
        Some((u - 87) as u8)
    } else if 65 <= u && u <= 70 {
        Some((u - 55) as u8)
    } else {
        None
    }
}

/// Parses canonical hyphenated UUID text, with hex digits of either case;
/// returns the denoted value exactly when the text matches the layout, and
/// nothing otherwise.
pub fn parse_uuid(s: &str) -> (r: Option<u128>)
    ensures
        match r {
            Some(bits) => is_uuid_text(s@) && bits == uuid_val_of(s@),
            None => !is_uuid_text(s@),
        },
{
    let len = s.unicode_len();
    if len != 36 {
        return None;
    }
    let mut bits: u128 = 0;
    let mut p: usize = 0;
    while p < 36
        invariant
            p <= 36,
            s@.len() == 36,
            forall|q: int| 0 <= q < p ==> #[trigger] uuid_char_ok(s@, q),
            bits == uuid_prefix_val(s@, p as int - hyphens_before(p as int)),
        decreases 36 - p,
    {
        let c = s.get_char(p);
        if p == 8 || p == 13 || p == 18 || p == 23 {
            if c != '-' {
                proof {
                    assert(!uuid_char_ok(s@, p as int));
                }
                return None;
            }
            proof {
                assert(uuid_char_ok(s@, p as int));
                assert((p + 1) as int - hyphens_before(p as int + 1) == p as int - hyphens_before(
                    p as int,
                ));
            }
        } else {
            match hex_digit_val(c) {
                None => {
                    proof {
                        assert(!uuid_char_ok(s@, p as int));
                    }
                    return None;
                },
                Some(v) => {
                    proof {
                        assert(uuid_char_ok(s@, p as int));
                        let nib = p as int - hyphens_before(p as int);
                        assert(nibble_pos(nib) == p as int);
                        assert((p + 1) as int - hyphens_before(p as int + 1) == nib + 1);
                        assert(uuid_prefix_val(s@, nib + 1) == (uuid_prefix_val(s@, nib) << 4u128)
                            | (hex_val(s@[nibble_pos(nib)]) as u128));
                    }
                    bits = (bits << 4u128) | (v as u128);
                },
            }
        }
        p += 1;
    }
    proof {
        assert(hyphens_before(36) == 4);
        assert(bits == uuid_val_of(s@));
        assert(is_uuid_text(s@));
    }
    Some(bits)
}

/// A hex digit character denotes its value: formatting a nibble and reading
/// it back is the identity.
proof fn lemma_hex_char_val(v: u128)
    requires
        v < 16,
    ensures
        is_hex_digit(hex_char_of(v)),
        hex_val(hex_char_of(v)) == v,
{
    if v < 10 {
        assert(hex_char_of(v) == (((v + 48) as u8) as char));
        assert((((v + 48) as u8) as char) as int == v + 48);
    } else {
        assert(hex_char_of(v) == (((v + 87) as u8) as char));
        assert((((v + 87) as u8) as char) as int == v + 87);
    }
}

/// Every nibble position is a non-hyphen position that maps back to its
/// nibble index.
proof fn lemma_nibble_pos_inverse(i: int)
    requires
        0 <= i < 32,
    ensures
        0 <= nibble_pos(i) < 36,
        !is_hyphen_pos(nibble_pos(i)),
        nibble_pos(i) - hyphens_before(nibble_pos(i)) == i,
{
}

/// The first `n` nibbles of the canonical text of `bits` denote the top
/// `4 * n` bits of `bits`.
proof fn lemma_uuid_prefix_reconstruct(bits: u128, n: int)
    requires
        0 <= n <= 32,
    ensures
        uuid_prefix_val(uuid_text_of(bits), n) == (if n == 0 {
            0u128
        } else {
            bits >> (((32 - n) * 4) as u128)
        }),
    decreases n,
{
    let s = uuid_text_of(bits);
    if n > 0 {
        lemma_uuid_prefix_reconstruct(bits, n - 1);
        let i = n - 1;
        lemma_nibble_pos_inverse(i);
        let sh = ((31 - i) * 4) as u128;
        assert(((bits >> sh) & 0xf) < 16) by (bit_vector);
        lemma_hex_char_val(nibble(bits, i));
        assert(s[nibble_pos(i)] == uuid_char_at(bits, nibble_pos(i)));
        assert(s[nibble_pos(i)] == hex_char_of(nibble(bits, i)));
        assert(hex_val(s[nibble_pos(i)]) == nibble(bits, i));
        if n == 1 {
            assert(uuid_prefix_val(s, 1) == (0u128 << 4u128) | ((bits >> 124u128) & 0xf));
            assert((0u128 << 4u128) | ((bits >> 124u128) & 0xf) == bits >> 124u128)
                by (bit_vector);
        } else {
            let k = ((32 - n) * 4) as u128;
            assert(sh == k);
            assert(uuid_prefix_val(s, n) == ((bits >> ((k + 4) as u128)) << 4u128) | ((bits >> k)
                & 0xf));
            assert(k <= 120 ==> ((bits >> ((k + 4) as u128)) << 4u128) | ((bits >> k) & 0xf)
                == bits >> k) by (bit_vector);
            assert(k <= 120);
        }
    }
}

/// Formatting is lossless: the canonical text of any value is a valid UUID
/// text, and parsing it yields the value again.
pub proof fn lemma_uuid_text_round_trip(bits: u128)
    ensures
        is_uuid_text(uuid_text_of(bits)),
        uuid_val_of(uuid_text_of(bits)) == bits,
{
    let s = uuid_text_of(bits);
    assert forall|p: int| 0 <= p < 36 implies #[trigger] uuid_char_ok(s, p) by {
        if !is_hyphen_pos(p) {
            let i = p - hyphens_before(p);
            assert(0 <= i < 32);
            let sh = ((31 - i) * 4) as u128;
            assert(((bits >> sh) & 0xf) < 16) by (bit_vector);
            lemma_hex_char_val(nibble(bits, i));
        }
    }
    lemma_uuid_prefix_reconstruct(bits, 32);
    assert(bits >> 0u128 == bits) by (bit_vector);
}

} // verus!
