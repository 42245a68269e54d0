//! CRC-32, and what it is sure to notice.
use vstd::prelude::*;

verus! {

/// The generator polynomial of zip and Ethernet, in bit-reversed form.
pub const POLYNOMIAL: u32 = 0xEDB8_8320;

/// The shift register after one more message bit: the register moves down by
/// one, and takes in the generator whenever the bit that falls out of it
/// differs from the message bit.
pub open spec fn shifted(register: u32, bit: u32) -> u32 {
    if register & 1 == bit & 1 {
        register >> 1
    } else {
        (register >> 1) ^ POLYNOMIAL
    }
}

/// The register after the `count` lowest bits of `byte`, lowest bit first.
pub open spec fn after_bits(register: u32, byte: u8, count: nat) -> u32
    decreases count,
{
    if count == 0 {
        register
    } else {
        shifted(after_bits(register, byte, (count - 1) as nat), (byte as u32) >> (count - 1) as u32)
    }
}

/// The register after all eight bits of `byte`.
pub open spec fn after_byte(register: u32, byte: u8) -> u32 {
    after_bits(register, byte, 8)
}

/// The register after every byte of `message`, in order.
pub open spec fn after_message(register: u32, message: Seq<u8>) -> u32
    decreases message.len(),
{
    if message.len() == 0 {
        register
    } else {
        after_byte(after_message(register, message.drop_last()), message.last())
    }
}

/// The CRC-32 of `message`: the register starts as all ones and is read out
/// inverted.
#[verifier::opaque]
pub open spec fn checksum(message: Seq<u8>) -> u32 {
    !after_message(u32::MAX, message)
}

/// One round on a register that already has the message bits still to come
/// folded into its low end, which is how a whole byte is taken in at once.
proof fn lemma_round(mixed: u32, mask: u32, register: u32, rest: u32)
    requires
        mixed == register ^ rest,
        mask == if mixed & 1 == 1 {
            u32::MAX
        } else {
            0u32
        },
    ensures
        ((mixed >> 1) ^ (POLYNOMIAL & mask)) == shifted(register, rest) ^ (rest >> 1),
{
    assert(((mixed >> 1) ^ (0xEDB8_8320u32 & mask)) == shifted(register, rest) ^ (rest >> 1))
        by (bit_vector)
        requires
            mixed == register ^ rest,
            mask == if mixed & 1 == 1 {
                0xffff_ffffu32
            } else {
                0u32
            },
    ;
}

/// Takes one byte into the register.
fn take_in(register: u32, byte: u8) -> (r: u32)
    ensures
        r == after_byte(register, byte),
{
    let mut crc: u32 = register ^ byte as u32;
    let mut i: u32 = 0;
    proof {
        let wide = byte as u32;
        assert(wide >> 0u32 == wide) by (bit_vector);
    }
    while i < 8
        invariant
            i <= 8,
            crc == after_bits(register, byte, i as nat) ^ ((byte as u32) >> i),
        decreases 8 - i,
    {
        // Branchless: all ones exactly when the low bit is set.
        let low: u32 = crc & 1;
        let mask: u32 = 0u32.wrapping_sub(low);
        proof {
            let wide = byte as u32;
            assert(crc & 1 == 0 || crc & 1 == 1) by (bit_vector);
            lemma_round(crc, mask, after_bits(register, byte, i as nat), wide >> i);
            assert((wide >> i) >> 1 == wide >> ((i + 1) as u32)) by (bit_vector)
                requires
                    i < 8,
            ;
        }
        crc = (crc >> 1) ^ (POLYNOMIAL & mask);
        i = i + 1;
    }
    proof {
        let register8 = after_byte(register, byte);
        let wide = byte as u32;
        assert(register8 ^ (wide >> 8u32) == register8) by (bit_vector)
            requires
                wide < 256,
        ;
    }
    crc
}

/// CRC-32 as used by zip and Ethernet, over `head` followed by `body`.
///
/// Bit-at-a-time rather than table-driven: a few hundred bytes are checksummed
/// once per boot and once per save, so the 1 KiB lookup table would cost more
/// flash than the loop ever costs time.
pub fn crc32(head: &[u8], body: &[u8]) -> (crc: u32)
    ensures
        crc == checksum(head@ + body@),
{
    reveal(checksum);
    let mut register: u32 = u32::MAX;
    let mut i: usize = 0;
    while i < head.len()
        invariant
            i <= head@.len(),
            register == after_message(u32::MAX, head@.take(i as int)),
        decreases head@.len() - i,
    {
        register = take_in(register, head[i]);
        assert(head@.take(i + 1).drop_last() =~= head@.take(i as int));
        i = i + 1;
    }
    let mut j: usize = 0;
    assert((head@ + body@).take(head@.len() as int) =~= head@.take(i as int));
    while j < body.len()
        invariant
            j <= body@.len(),
            register == after_message(u32::MAX, (head@ + body@).take(head@.len() + j)),
        decreases body@.len() - j,
    {
        register = take_in(register, body[j]);
        assert((head@ + body@).take(head@.len() + j + 1).drop_last() =~= (head@ + body@).take(
            head@.len() + j,
        ));
        j = j + 1;
    }
    assert((head@ + body@).take(head@.len() + j) =~= head@ + body@);
    !register
}

/// The register is linear: two runs may be laid over one another.
proof fn lemma_bits_linear(r1: u32, r2: u32, b1: u8, b2: u8, count: nat)
    requires
        count <= 8,
    ensures
        after_bits(r1 ^ r2, b1 ^ b2, count) == after_bits(r1, b1, count) ^ after_bits(r2, b2, count),
    decreases count,
{
    if count > 0 {
        let k = (count - 1) as nat;
        lemma_bits_linear(r1, r2, b1, b2, k);
        let n1 = after_bits(r1, b1, k);
        let n2 = after_bits(r2, b2, k);
        let at = k as u32;
        assert(shifted(n1 ^ n2, ((b1 ^ b2) as u32) >> at) == shifted(n1, (b1 as u32) >> at)
            ^ shifted(n2, (b2 as u32) >> at)) by (bit_vector);
    }
}

/// A register whose top byte comes out clear took in no generator on the way,
/// so the run can be read backwards.
proof fn lemma_bits_unwind(register: u32, byte: u8, out: u32, count: nat)
    requires
        count <= 8,
        out < 0x100_0000,
        after_byte(register, byte) == out,
    ensures
        after_bits(register, byte, count) == (out << ((8 - count) as u32)) | ((byte as u32) >> (
        count as u32)),
    decreases 8 - count,
{
    let wide = byte as u32;
    let at = count as u32;
    if count == 8 {
        assert((out << 0u32) | (wide >> 8u32) == out) by (bit_vector)
            requires
                wide < 256,
        ;
    } else {
        lemma_bits_unwind(register, byte, out, count + 1);
        let now = after_bits(register, byte, count);
        let next = after_bits(register, byte, count + 1);
        assert(next == shifted(now, wide >> at));
        assert(now == (out << ((8 - at) as u32)) | (wide >> at)) by (bit_vector)
            requires
                next == shifted(now, wide >> at),
                next == (out << ((7 - at) as u32)) | (wide >> ((at + 1) as u32)),
                out < 0x100_0000u32,
                wide < 256,
                at < 8,
        ;
    }
}

/// [`lemma_bits_unwind`] over a whole byte.
proof fn lemma_byte_unwind(register: u32, byte: u8)
    requires
        after_byte(register, byte) < 0x100_0000,
    ensures
        register == (after_byte(register, byte) << 8) | (byte as u32),
{
    let out = after_byte(register, byte);
    lemma_bits_unwind(register, byte, out, 0);
    let wide = byte as u32;
    assert((out << 8u32) | (wide >> 0u32) == (out << 8u32) | wide) by (bit_vector);
}

/// Registers that differ before a message differ after it.
proof fn lemma_message_injective(r1: u32, r2: u32, message: Seq<u8>)
    requires
        after_message(r1, message) == after_message(r2, message),
    ensures
        r1 == r2,
    decreases message.len(),
{
    if message.len() > 0 {
        let n1 = after_message(r1, message.drop_last());
        let n2 = after_message(r2, message.drop_last());
        let byte = message.last();
        lemma_bits_linear(n1, n2, byte, byte, 8);
        let o1 = after_byte(n1, byte);
        let o2 = after_byte(n2, byte);
        assert(o1 ^ o2 == 0) by (bit_vector)
            requires
                o1 == o2,
        ;
        assert(byte ^ byte == 0u8) by (bit_vector);
        lemma_byte_unwind(n1 ^ n2, 0u8);
        assert((0u32 << 8u32) | 0u32 == 0) by (bit_vector);
        assert(n1 == n2) by (bit_vector)
            requires
                n1 ^ n2 == 0,
        ;
        lemma_message_injective(r1, r2, message.drop_last());
    }
}

/// A message can be taken in in two parts.
proof fn lemma_message_split(register: u32, m1: Seq<u8>, m2: Seq<u8>)
    ensures
        after_message(register, m1 + m2) == after_message(after_message(register, m1), m2),
    decreases m2.len(),
{
    if m2.len() == 0 {
        assert(m1 + m2 =~= m1);
    } else {
        lemma_message_split(register, m1, m2.drop_last());
        assert((m1 + m2).drop_last() =~= m1 + m2.drop_last());
    }
}

/// How large a register difference may be if it is still to leave room for
/// `count` more bytes below it.
spec fn headroom(count: nat) -> int {
    if count == 0 {
        0x1_0000_0000
    } else if count == 1 {
        0x100_0000
    } else if count == 2 {
        0x1_0000
    } else if count == 3 {
        0x100
    } else {
        1
    }
}

/// Two runs of at most four bytes that end in the same register, from the same
/// register, took in the same bytes. `r1 ^ r2` gathers the byte differences
/// from the last one back.
proof fn lemma_window(r1: u32, r2: u32, w1: Seq<u8>, w2: Seq<u8>)
    requires
        w1.len() == w2.len(),
        w1.len() <= 4,
        (after_message(r1, w1) ^ after_message(r2, w2)) < headroom(w1.len()),
    ensures
        r1 == r2 ==> w1 == w2 && after_message(r1, w1) == after_message(r2, w2),
    decreases w1.len(),
{
    let o1 = after_message(r1, w1);
    let o2 = after_message(r2, w2);
    if w1.len() == 0 {
        assert(w1 =~= w2);
    } else {
        let n1 = after_message(r1, w1.drop_last());
        let n2 = after_message(r2, w2.drop_last());
        let b1 = w1.last();
        let b2 = w2.last();
        lemma_bits_linear(n1, n2, b1, b2, 8);
        lemma_byte_unwind(n1 ^ n2, b1 ^ b2);
        let out = o1 ^ o2;
        let wide = (b1 ^ b2) as u32;
        assert(out < 0x100_0000u32 ==> ((out << 8u32) | wide) == out * 256 + wide) by (bit_vector)
            requires
                wide < 256,
        ;
        lemma_window(r1, r2, w1.drop_last(), w2.drop_last());
        if r1 == r2 {
            assert(n1 ^ n2 == 0) by (bit_vector)
                requires
                    n1 == n2,
            ;
            assert(b1 == b2) by (bit_vector)
                requires
                    (b1 ^ b2) as u32 == 0,
            ;
            assert(o1 == o2);
            assert(w1 =~= w1.drop_last().push(b1));
            assert(w2 =~= w2.drop_last().push(b2));
        }
    }
}

/// Damage confined to four consecutive bytes always changes the checksum.
pub proof fn law_four_byte_damage_is_noticed(good: Seq<u8>, bad: Seq<u8>, at: int)
    requires
        good.len() == bad.len(),
        good != bad,
        forall|i: int|
            0 <= i < good.len() && !(at <= i < at + 4) ==> #[trigger] good[i] == bad[i],
    ensures
        checksum(good) != checksum(bad),
{
    reveal(checksum);
    let len = good.len() as int;
    let from = if at < 0 {
        0
    } else if at > len {
        len
    } else {
        at
    };
    let to = if at + 4 < 0 {
        0
    } else if at + 4 > len {
        len
    } else {
        at + 4
    };
    let g = good.subrange(from, to);
    let b = bad.subrange(from, to);
    let lead = good.take(from);
    let tail = good.skip(to);
    assert(bad.take(from) =~= lead);
    assert(bad.skip(to) =~= tail);
    assert(good =~= lead + g + tail);
    assert(bad =~= lead + b + tail);
    let r = after_message(u32::MAX, lead);
    lemma_message_split(u32::MAX, lead, g);
    lemma_message_split(u32::MAX, lead, b);
    lemma_message_split(u32::MAX, lead + g, tail);
    lemma_message_split(u32::MAX, lead + b, tail);
    let fg = after_message(u32::MAX, good);
    let fb = after_message(u32::MAX, bad);
    if !fg == !fb {
        assert(fg == fb) by (bit_vector)
            requires
                !fg == !fb,
        ;
        let og = after_message(r, g);
        let ob = after_message(r, b);
        lemma_message_injective(og, ob, tail);
        assert(og ^ ob == 0) by (bit_vector)
            requires
                og == ob,
        ;
        lemma_window(r, r, g, b);
        assert(good =~= bad);
    }
}

/// The checksum is the CRC-32 of zip and Ethernet, for messages of every length.
///
/// No message at all has checksum zero. One more byte is laid over the low end
/// of the inverted checksum; then, eight times over, the register moves down by
/// one and takes in the generator if a one falls out; then it is inverted again.
pub proof fn law_checksum_is_crc32(message: Seq<u8>, byte: u8)
    ensures
        checksum(Seq::empty()) == 0,
        ({
            let x0: u32 = !checksum(message) ^ (byte as u32);
            let x1: u32 = if x0 & 1 == 1 {
                (x0 >> 1) ^ 0xEDB8_8320
            } else {
                x0 >> 1
            };
            let x2: u32 = if x1 & 1 == 1 {
                (x1 >> 1) ^ 0xEDB8_8320
            } else {
                x1 >> 1
            };
            let x3: u32 = if x2 & 1 == 1 {
                (x2 >> 1) ^ 0xEDB8_8320
            } else {
                x2 >> 1
            };
            let x4: u32 = if x3 & 1 == 1 {
                (x3 >> 1) ^ 0xEDB8_8320
            } else {
                x3 >> 1
            };
            let x5: u32 = if x4 & 1 == 1 {
                (x4 >> 1) ^ 0xEDB8_8320
            } else {
                x4 >> 1
            };
            let x6: u32 = if x5 & 1 == 1 {
                (x5 >> 1) ^ 0xEDB8_8320
            } else {
                x5 >> 1
            };
            let x7: u32 = if x6 & 1 == 1 {
                (x6 >> 1) ^ 0xEDB8_8320
            } else {
                x6 >> 1
            };
            let x8: u32 = if x7 & 1 == 1 {
                (x7 >> 1) ^ 0xEDB8_8320
            } else {
                x7 >> 1
            };
            checksum(message.push(byte)) == !x8
        }),
{
    reveal(checksum);
    let r = after_message(u32::MAX, message);
    let wide = byte as u32;
    assert(after_message(u32::MAX, Seq::empty()) == u32::MAX);
    assert(!0xffff_ffffu32 == 0u32) by (bit_vector);
    assert(message.push(byte).drop_last() =~= message);
    assert(!(!r) == r) by (bit_vector);
    let x0: u32 = r ^ wide;
    assert(wide >> 0u32 == wide) by (bit_vector);
    let x1: u32 = if x0 & 1 == 1 {
        (x0 >> 1) ^ 0xEDB8_8320
    } else {
        x0 >> 1
    };
    lemma_plain_round(r, byte, 0, x0);
    let x2: u32 = if x1 & 1 == 1 {
        (x1 >> 1) ^ 0xEDB8_8320
    } else {
        x1 >> 1
    };
    lemma_plain_round(r, byte, 1, x1);
    let x3: u32 = if x2 & 1 == 1 {
        (x2 >> 1) ^ 0xEDB8_8320
    } else {
        x2 >> 1
    };
    lemma_plain_round(r, byte, 2, x2);
    let x4: u32 = if x3 & 1 == 1 {
        (x3 >> 1) ^ 0xEDB8_8320
    } else {
        x3 >> 1
    };
    lemma_plain_round(r, byte, 3, x3);
    let x5: u32 = if x4 & 1 == 1 {
        (x4 >> 1) ^ 0xEDB8_8320
    } else {
        x4 >> 1
    };
    lemma_plain_round(r, byte, 4, x4);
    let x6: u32 = if x5 & 1 == 1 {
        (x5 >> 1) ^ 0xEDB8_8320
    } else {
        x5 >> 1
    };
    lemma_plain_round(r, byte, 5, x5);
    let x7: u32 = if x6 & 1 == 1 {
        (x6 >> 1) ^ 0xEDB8_8320
    } else {
        x6 >> 1
    };
    lemma_plain_round(r, byte, 6, x6);
    let x8: u32 = if x7 & 1 == 1 {
        (x7 >> 1) ^ 0xEDB8_8320
    } else {
        x7 >> 1
    };
    lemma_plain_round(r, byte, 7, x7);
    assert(wide >> 8u32 == 0) by (bit_vector)
        requires
            wide < 256,
    ;
    let end = after_byte(r, byte);
    assert(end ^ 0u32 == end) by (bit_vector);
}

/// One round on a register that has the message bits still to come laid over its
/// low end.
proof fn lemma_plain_round(register: u32, byte: u8, count: nat, x: u32)
    requires
        count < 8,
        x == after_bits(register, byte, count) ^ ((byte as u32) >> (count as u32)),
    ensures
        (if x & 1 == 1 {
            (x >> 1) ^ 0xEDB8_8320
        } else {
            x >> 1
        }) == after_bits(register, byte, count + 1) ^ ((byte as u32) >> ((count + 1) as u32)),
{
    let now = after_bits(register, byte, count);
    let at = count as u32;
    let rest = (byte as u32) >> at;
    let wide = byte as u32;
    assert((if x & 1 == 1 {
        (x >> 1) ^ 0xEDB8_8320u32
    } else {
        x >> 1
    }) == shifted(now, rest) ^ (rest >> 1)) by (bit_vector)
        requires
            x == now ^ rest,
    ;
    assert((wide >> at) >> 1 == wide >> ((at + 1) as u32)) by (bit_vector)
        requires
            at < 8,
    ;
}

/// Messages can be checksummed in two parts, wherever they are parted, and the
/// checksum of the first part and the bytes of the second are all that counts.
pub proof fn law_checksum_goes_on_from_any_part(one: Seq<u8>, two: Seq<u8>, rest: Seq<u8>)
    requires
        checksum(one) == checksum(two),
    ensures
        checksum(one + rest) == checksum(two + rest),
{
    reveal(checksum);
    lemma_message_split(u32::MAX, one, rest);
    lemma_message_split(u32::MAX, two, rest);
    let r1 = after_message(u32::MAX, one);
    let r2 = after_message(u32::MAX, two);
    assert(r1 == r2) by (bit_vector)
        requires
            !r1 == !r2,
    ;
}

} // verus!
